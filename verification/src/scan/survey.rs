//! What a scan learns before it probes anything: the base, the branches that
//! may be examined at all, and those that ancestry already answers.

use vstd::hash_set::StringHashSet;
use vstd::prelude::*;

use crate::git::{self, Error, ErrorView, Exchange, Git, Reading};
use crate::scan::base::{
    self, base_local_counterpart, current_branch, resolve_base, worktree_branches,
};
use crate::scan::probe::set_of;
use crate::scan::protect::{self, is_protected, protected_patterns};
use crate::scan::refs::{self, RawBranch, RawBranchView};
use crate::scan::{Base, BaseView, Options, OptionsView};
use crate::text;

verus! {

/// The fields that a listing of branches prints, NUL-separated.
pub const FORMAT: &'static str =
    "--format=%(refname)%00%(objectname)%00%(upstream)%00%(upstream:short)%00%(upstream:track)%00%(upstream:remotename)%00%(committerdate:unix)%00%(contents:subject)";

/// Asks whether the repository is a shallow clone.
pub open spec fn shallow_args() -> Seq<Seq<char>> {
    seq!["rev-parse"@, "--is-shallow-repository"@]
}

/// Asks for the branches that are ancestors of a commit.
pub open spec fn merged_args(base: Seq<char>, remotes: bool) -> Seq<Seq<char>> {
    seq!["for-each-ref"@, "refs/heads"@] + (if remotes {
        seq!["refs/remotes"@]
    } else {
        Seq::empty()
    }) + seq!["--merged"@, base, "--format=%(refname)"@]
}

/// Asks for the local branches.
pub open spec fn heads_args() -> Seq<Seq<char>> {
    seq!["for-each-ref"@, "refs/heads"@, FORMAT@]
}

/// Asks for the names of the local branches.
pub open spec fn names_args() -> Seq<Seq<char>> {
    seq!["for-each-ref"@, "refs/heads"@, "--format=%(refname:short)"@]
}

/// Asks for the remote-tracking branches.
pub open spec fn remotes_args() -> Seq<Seq<char>> {
    seq!["for-each-ref"@, "refs/remotes"@, FORMAT@]
}

/// What is known before any branch is listed.
pub struct Ground {
    pub base: Base,
    /// The checked-out branch; None on a detached HEAD.
    pub current: Option<String>,
    pub protected: Vec<String>,
    pub shallow: bool,
    /// Refs checked out in any worktree.
    pub held: StringHashSet,
}

/// What [`Ground`] holds.
pub struct GroundView {
    pub base: BaseView,
    pub current: Option<Seq<char>>,
    pub protected: Seq<Seq<char>>,
    pub shallow: bool,
    pub held: Set<Seq<char>>,
}

impl View for Ground {
    type V = GroundView;

    open spec fn view(&self) -> GroundView {
        GroundView {
            base: self.base@,
            current: self.current.deep_view(),
            protected: self.protected.deep_view(),
            shallow: self.shallow,
            held: self.held@,
        }
    }
}

/// Everything known of a repository before the first probe.
pub struct Survey {
    pub base: Base,
    pub shallow: bool,
    /// Refs that are ancestors of the base.
    pub merged: StringHashSet,
    /// The branches that may become candidates, local ones first.
    pub examinable: Vec<RawBranch>,
}

/// What a [`Survey`] holds.
pub struct SurveyView {
    pub base: BaseView,
    pub shallow: bool,
    pub merged: Set<Seq<char>>,
    pub examinable: Seq<RawBranchView>,
}

impl View for Survey {
    type V = SurveyView;

    open spec fn view(&self) -> SurveyView {
        SurveyView {
            base: self.base@,
            shallow: self.shallow,
            merged: self.merged@,
            examinable: self.examinable.deep_view(),
        }
    }
}

/// Never candidates: branches checked out in any worktree, the base itself,
/// its local twin, protected names. (Merely TRACKING the base is not an
/// exclusion: `git switch -c feat origin/main` sets exactly that upstream on
/// perfectly ordinary feature branches.)
pub open spec fn local_excluded(g: GroundView, twin: Option<Seq<char>>, b: RawBranchView) -> bool {
    ||| g.held.contains(b.refname)
    ||| g.current == Some(b.name)
    ||| g.base.refname == Some(b.refname)
    ||| twin == Some(b.refname)
    ||| protect::protected(g.protected, b.name)
}

/// `origin/HEAD` is a symref onto the default branch, the base itself is
/// never a candidate, and anything that still has a local branch belongs to
/// the local flow — every local branch, not just the examinable ones: a
/// remote whose twin is merely protected or checked out is not
/// "remote-only".
pub open spec fn remote_excluded(g: GroundView, local: Set<Seq<char>>, b: RawBranchView) -> bool {
    ||| refs::on_remote(b.name) == "HEAD"@
    ||| g.base.refname == Some(b.refname)
    ||| protect::protected(g.protected, refs::on_remote(b.name))
    ||| protect::protected(g.protected, b.name)
    ||| local.contains(refs::on_remote(b.name))
}

/// The local branches of a listing that may be examined.
pub open spec fn local_branches(
    lines: Seq<Seq<char>>,
    g: GroundView,
    twin: Option<Seq<char>>,
) -> Seq<RawBranchView>
    decreases lines.len(),
{
    if lines.len() == 0 {
        Seq::empty()
    } else {
        let earlier = local_branches(lines.drop_last(), g, twin);
        match refs::local_line(lines.last()) {
            Some(b) if !local_excluded(g, twin, b) => earlier.push(b),
            _ => earlier,
        }
    }
}

/// The remote-tracking branches of a listing that may be examined.
pub open spec fn remote_branches(
    lines: Seq<Seq<char>>,
    g: GroundView,
    local: Set<Seq<char>>,
) -> Seq<RawBranchView>
    decreases lines.len(),
{
    if lines.len() == 0 {
        Seq::empty()
    } else {
        let earlier = remote_branches(lines.drop_last(), g, local);
        match refs::remote_line(lines.last()) {
            Some(b) if !remote_excluded(g, local, b) => earlier.push(b),
            _ => earlier,
        }
    }
}

/// Is the repository a shallow clone? A git that cannot answer predates
/// shallow clones being common.
pub open spec fn read_shallow(h: Seq<Exchange>, p: int) -> Reading<bool> {
    let answer = git::read_attempt(h, p, shallow_args());
    match answer.value {
        Err(e) => answer.failing(e),
        Ok((ok, out)) => answer.with(ok && text::trim(out) == "true"@),
    }
}

/// What is asked once the base is known.
pub open spec fn read_rest_of_ground(
    h: Seq<Exchange>,
    p: int,
    opts: OptionsView,
    base: BaseView,
) -> Reading<GroundView> {
    let head = base::read_current(h, p);
    match head.value {
        Err(e) => head.failing(e),
        Ok(current) => {
            let patterns = protect::read_protected(h, head.end, opts.protect).behind(head);
            match patterns.value {
                Err(e) => patterns.failing(e),
                Ok(protected) => {
                    let depth = read_shallow(h, patterns.end).behind(patterns);
                    match depth.value {
                        Err(e) => depth.failing(e),
                        Ok(shallow) => {
                            let trees = base::read_held(h, depth.end).behind(depth);
                            match trees.value {
                                Err(e) => trees.failing(e),
                                Ok(held) => trees.with(
                                    GroundView { base, current, protected, shallow, held },
                                ),
                            }
                        },
                    }
                },
            }
        },
    }
}

/// [`ground`].
pub open spec fn read_ground(h: Seq<Exchange>, p: int, opts: OptionsView) -> Reading<GroundView> {
    let base = base::read_base(h, p, opts.base);
    match base.value {
        Err(e) => base.failing(e),
        Ok(b) => read_rest_of_ground(h, base.end, opts, b).behind(base),
    }
}

/// The local half of a survey.
pub open spec fn read_locals(
    h: Seq<Exchange>,
    p: int,
    g: GroundView,
    remotes: bool,
) -> Reading<SurveyView> {
    let ancestors = git::read_output(h, p, merged_args(g.base.sha, remotes));
    match ancestors.value {
        Err(e) => ancestors.failing(e),
        Ok(merged) => {
            let counterpart = base::read_counterpart(h, ancestors.end, g.base).behind(ancestors);
            match counterpart.value {
                Err(e) => counterpart.failing(e),
                Ok(twin) => {
                    let listing = git::read_output(h, counterpart.end, heads_args()).behind(
                        counterpart,
                    );
                    match listing.value {
                        Err(e) => listing.failing(e),
                        Ok(raw) => listing.with(
                            SurveyView {
                                base: g.base,
                                shallow: g.shallow,
                                merged: text::lines(merged).to_set(),
                                examinable: local_branches(text::lines(raw), g, twin),
                            },
                        ),
                    }
                },
            }
        },
    }
}

/// The remote half of a survey.
pub open spec fn read_remotes(h: Seq<Exchange>, p: int, g: GroundView) -> Reading<
    Seq<RawBranchView>,
> {
    let names = git::read_output(h, p, names_args());
    match names.value {
        Err(e) => names.failing(e),
        Ok(local) => {
            let listing = git::read_output(h, names.end, remotes_args()).behind(names);
            match listing.value {
                Err(e) => listing.failing(e),
                Ok(raw) => listing.with(
                    remote_branches(text::lines(raw), g, text::lines(local).to_set()),
                ),
            }
        },
    }
}

/// [`survey`].
#[verifier::opaque]
pub open spec fn read_survey(h: Seq<Exchange>, p: int, opts: OptionsView) -> Reading<SurveyView> {
    let known = read_ground(h, p, opts);
    match known.value {
        Err(e) => known.failing(e),
        Ok(g) => {
            let locals = read_locals(h, known.end, g, opts.include_remote_only).behind(known);
            match locals.value {
                Err(e) => locals.failing(e),
                Ok(s) => if opts.include_remote_only {
                    let remotes = read_remotes(h, locals.end, g).behind(locals);
                    match remotes.value {
                        Err(e) => remotes.failing(e),
                        Ok(more) => remotes.with(
                            SurveyView { examinable: s.examinable + more, ..s },
                        ),
                    }
                } else {
                    locals
                },
            }
        },
    }
}

/// Whether the repository is a shallow clone.
fn is_shallow<G: Git>(git: &mut G) -> (r: Result<bool, Error>)
    ensures
        read_shallow(final(git).history(), old(git).history().len() as int).is_told(
            old(git).history(),
            final(git).history(),
            match r {
                Ok(b) => Ok(b),
                Err(e) => Err(e@),
            },
        ),
{
    let reply = git.try_run(&["rev-parse", "--is-shallow-repository"]);
    assert(git.history().last().args =~= shallow_args());
    match reply {
        Ok((ok, out)) => Ok(ok && text::same(text::trimmed(out.as_str()).as_str(), "true")),
        Err(e) => Err(e),
    }
}

/// Everything that is asked before branches are listed.
pub fn ground<'a, G: Git>(git: &mut G, opts: &Options<'a>) -> (r: Result<Ground, Error>)
    ensures
        read_ground(final(git).history(), old(git).history().len() as int, opts@).is_told(
            old(git).history(),
            final(git).history(),
            match r {
                Ok(g) => Ok(g@),
                Err(e) => Err(e@),
            },
        ),
{
    let ghost p = git.history().len() as int;
    let base = match resolve_base(git, opts.base) {
        Ok(base) => base,
        Err(e) => return Err(e),
    };
    let ghost h = git.history();
    let r = rest_of_ground(git, opts, base);
    proof {
        base::lemma_base_stays(h, git.history(), p, opts@.base);
    }
    r
}

/// What is asked once the base is known.
fn rest_of_ground<'a, G: Git>(git: &mut G, opts: &Options<'a>, base: Base) -> (r: Result<
    Ground,
    Error,
>)
    ensures
        read_rest_of_ground(
            final(git).history(),
            old(git).history().len() as int,
            opts@,
            base@,
        ).is_told(
            old(git).history(),
            final(git).history(),
            match r {
                Ok(g) => Ok(g@),
                Err(e) => Err(e@),
            },
        ),
{
    let current = match current_branch(git) {
        Ok(current) => current,
        Err(e) => return Err(e),
    };
    let protected = match protected_patterns(git, opts.protect) {
        Ok(protected) => protected,
        Err(e) => return Err(e),
    };
    let shallow = match is_shallow(git) {
        Ok(shallow) => shallow,
        Err(e) => return Err(e),
    };
    let held = match worktree_branches(git) {
        Ok(held) => held,
        Err(e) => return Err(e),
    };
    Ok(Ground { base, current, protected, shallow, held })
}

/// The outcome of a survey, seen from outside.
pub open spec fn survey_result(r: Result<Survey, Error>) -> Result<SurveyView, ErrorView> {
    match r {
        Ok(s) => Ok(s@),
        Err(e) => Err(e@),
    }
}

/// Whether a local branch is never a candidate.
fn is_local_excluded(g: &Ground, twin: &Option<String>, b: &RawBranch) -> (r: bool)
    ensures
        r == local_excluded(g@, twin.deep_view(), b@),
{
    g.held.contains(b.refname.as_str()) || text::same_as_some(&g.current, b.name.as_str())
        || text::same_as_some(&g.base.refname, b.refname.as_str()) || text::same_as_some(
        twin,
        b.refname.as_str(),
    ) || is_protected(b.name.as_str(), &g.protected)
}

/// Whether a remote-tracking branch is never a candidate.
fn is_remote_excluded(g: &Ground, local: &StringHashSet, b: &RawBranch) -> (r: bool)
    ensures
        r == remote_excluded(g@, local@, b@),
{
    let short = b.short_remote_name();
    text::same(short.as_str(), "HEAD") || text::same_as_some(&g.base.refname, b.refname.as_str())
        || is_protected(short.as_str(), &g.protected) || is_protected(b.name.as_str(), &g.protected)
        || local.contains(short.as_str())
}

/// The local branches of a listing that may be examined.
fn locals_of(lines: &Vec<String>, g: &Ground, twin: &Option<String>) -> (r: Vec<RawBranch>)
    ensures
        r.deep_view() == local_branches(lines.deep_view(), g@, twin.deep_view()),
{
    let mut r: Vec<RawBranch> = Vec::new();
    let mut i: usize = 0;
    let ghost all = lines.deep_view();
    assert(all.take(0) =~= Seq::<Seq<char>>::empty());
    assert(r.deep_view() =~= Seq::<RawBranchView>::empty());
    while i < lines.len()
        invariant
            i <= lines@.len(),
            all == lines.deep_view(),
            r.deep_view() == local_branches(all.take(i as int), g@, twin.deep_view()),
        decreases lines@.len() - i,
    {
        let ghost earlier = r.deep_view();
        assert(all.take(i + 1).drop_last() =~= all.take(i as int));
        assert(all.take(i + 1).last() == lines@[i as int]@);
        if let Some(b) = RawBranch::parse(lines[i].as_str()) {
            if !is_local_excluded(g, twin, &b) {
                let ghost v = b@;
                r.push(b);
                assert(r.deep_view() =~= earlier.push(v));
            }
        }
        i += 1;
    }
    assert(all.take(i as int) =~= all);
    r
}

/// Adds the remote-tracking branches of a listing that may be examined.
fn add_remotes(list: &mut Vec<RawBranch>, lines: &Vec<String>, g: &Ground, local: &StringHashSet)
    ensures
        final(list).deep_view() == old(list).deep_view() + remote_branches(
            lines.deep_view(),
            g@,
            local@,
        ),
{
    let mut i: usize = 0;
    let ghost start = list.deep_view();
    let ghost all = lines.deep_view();
    assert(all.take(0) =~= Seq::<Seq<char>>::empty());
    assert(start + Seq::<RawBranchView>::empty() =~= start);
    while i < lines.len()
        invariant
            i <= lines@.len(),
            all == lines.deep_view(),
            list.deep_view() == start + remote_branches(all.take(i as int), g@, local@),
        decreases lines@.len() - i,
    {
        let ghost earlier = remote_branches(all.take(i as int), g@, local@);
        assert(all.take(i + 1).drop_last() =~= all.take(i as int));
        assert(all.take(i + 1).last() == lines@[i as int]@);
        if let Some(b) = RawBranch::parse_remote(lines[i].as_str()) {
            if !is_remote_excluded(g, local, &b) {
                let ghost v = b@;
                let ghost before = list.deep_view();
                list.push(b);
                assert(list.deep_view() =~= before.push(v));
                assert(start + earlier.push(v) =~= (start + earlier).push(v));
            }
        }
        i += 1;
    }
    assert(all.take(i as int) =~= all);
}

/// Asks for the branches that are ancestors of the base.
fn merged_refs<G: Git>(git: &mut G, base: &str, remotes: bool) -> (r: Result<String, Error>)
    ensures
        git::read_output(
            final(git).history(),
            old(git).history().len() as int,
            merged_args(base@, remotes),
        ).is_told(
            old(git).history(),
            final(git).history(),
            match r {
                Ok(s) => Ok(s@),
                Err(e) => Err(e@),
            },
        ),
{
    let reply = if remotes {
        git.run(
            &["for-each-ref", "refs/heads", "refs/remotes", "--merged", base, "--format=%(refname)"],
        )
    } else {
        git.run(&["for-each-ref", "refs/heads", "--merged", base, "--format=%(refname)"])
    };
    assert(git.history().last().args =~= merged_args(base@, remotes));
    reply
}

/// The local half of a survey.
fn survey_locals<G: Git>(git: &mut G, g: &Ground, remotes: bool) -> (r: Result<Survey, Error>)
    ensures
        read_locals(
            final(git).history(),
            old(git).history().len() as int,
            g@,
            remotes,
        ).is_told(old(git).history(), final(git).history(), survey_result(r)),
{
    // Every query is pinned to the sha resolved at scan start, not to the
    // base REF, which git would re-resolve per call. A fetch landing mid-scan
    // would otherwise judge early branches against one base tip and later
    // ones against another — and, worse, cache a verdict under a key naming a
    // base it was not computed against.
    let merged = match merged_refs(git, g.base.sha.as_str(), remotes) {
        Ok(out) => out,
        Err(e) => return Err(e),
    };
    // The local twin of a remote base: base `origin/main` → `refs/heads/main`.
    let twin = match base_local_counterpart(git, &g.base) {
        Ok(twin) => twin,
        Err(e) => return Err(e),
    };
    let reply = git.run(&["for-each-ref", "refs/heads", FORMAT]);
    assert(git.history().last().args =~= heads_args());
    let raw = match reply {
        Ok(out) => out,
        Err(e) => return Err(e),
    };
    Ok(
        Survey {
            base: g.base.clone(),
            shallow: g.shallow,
            merged: set_of(&text::lines_of(merged.as_str())),
            examinable: locals_of(&text::lines_of(raw.as_str()), g, &twin),
        },
    )
}

/// The remote half of a survey: remote branches without a local twin.
fn survey_remotes<G: Git>(git: &mut G, g: &Ground, list: &mut Vec<RawBranch>) -> (r: Result<
    (),
    Error,
>)
    ensures
        git::extends(old(git).history(), final(git).history()),
        read_remotes(final(git).history(), old(git).history().len() as int, g@).fits,
        read_remotes(final(git).history(), old(git).history().len() as int, g@).end
            == final(git).history().len(),
        match read_remotes(final(git).history(), old(git).history().len() as int, g@).value {
            Ok(more) => r is Ok && final(list).deep_view() == old(list).deep_view() + more,
            Err(e) => r matches Err(f) && f@ == e,
        },
{
    let reply = git.run(&["for-each-ref", "refs/heads", "--format=%(refname:short)"]);
    assert(git.history().last().args =~= names_args());
    let names = match reply {
        Ok(out) => out,
        Err(e) => return Err(e),
    };
    let reply = git.run(&["for-each-ref", "refs/remotes", FORMAT]);
    assert(git.history().last().args =~= remotes_args());
    let raw = match reply {
        Ok(out) => out,
        Err(e) => return Err(e),
    };
    let local = set_of(&text::lines_of(names.as_str()));
    add_remotes(list, &text::lines_of(raw.as_str()), g, &local);
    Ok(())
}

/// Finds the base and lists the branches that may be examined. Exclusions are
/// pure predicates over data already in hand, so they come first and shrink
/// the expensive stages that follow.
pub fn survey<'a, G: Git>(git: &mut G, opts: &Options<'a>) -> (r: Result<Survey, Error>)
    ensures
        read_survey(final(git).history(), old(git).history().len() as int, opts@).is_told(
            old(git).history(),
            final(git).history(),
            survey_result(r),
        ),
{
    let ghost p = git.history().len() as int;
    proof {
        reveal(read_survey);
    }
    let g = match ground(git, opts) {
        Ok(g) => g,
        Err(e) => return Err(e),
    };
    let ghost known = git.history();
    let mut s = match survey_locals(git, &g, opts.include_remote_only) {
        Ok(s) => s,
        Err(e) => {
            proof {
                lemma_ground_stays(known, git.history(), p, opts@);
            }
            return Err(e);
        },
    };
    proof {
        lemma_ground_stays(known, git.history(), p, opts@);
    }
    // Remote branches merged into the base whose local twin is already gone
    // join the others rather than getting a probe loop of their own, so they
    // share the same cache, the same walk, and the same progress total.
    if opts.include_remote_only {
        let ghost listed = git.history();
        let outcome = survey_remotes(git, &g, &mut s.examinable);
        proof {
            lemma_ground_stays(known, git.history(), p, opts@);
            lemma_locals_stay(
                listed,
                git.history(),
                known.len() as int,
                g@,
                opts@.include_remote_only,
            );
        }
        if let Err(e) = outcome {
            return Err(e);
        }
    }
    Ok(s)
}

/// What follows a stretch of history does not change its reading.
proof fn lemma_ground_stays(
    h: Seq<Exchange>,
    later: Seq<Exchange>,
    p: int,
    opts: OptionsView,
)
    requires
        git::extends(h, later),
        0 <= p,
        read_ground(h, p, opts).fits,
        read_ground(h, p, opts).end <= h.len(),
    ensures
        read_ground(later, p, opts) == read_ground(h, p, opts),
        p <= read_ground(h, p, opts).end,
{
    base::lemma_base_stays(h, later, p, opts.base);
}

/// What follows a stretch of history does not change its reading.
proof fn lemma_locals_stay(
    h: Seq<Exchange>,
    later: Seq<Exchange>,
    p: int,
    g: GroundView,
    remotes: bool,
)
    requires
        git::extends(h, later),
        0 <= p,
        read_locals(h, p, g, remotes).fits,
        read_locals(h, p, g, remotes).end <= h.len(),
    ensures
        read_locals(later, p, g, remotes) == read_locals(h, p, g, remotes),
        p <= read_locals(h, p, g, remotes).end,
{
}

/// What follows a stretch of history does not change its reading.
pub proof fn lemma_survey_stays(
    h: Seq<Exchange>,
    later: Seq<Exchange>,
    p: int,
    opts: OptionsView,
)
    requires
        git::extends(h, later),
        0 <= p,
        read_survey(h, p, opts).fits,
        read_survey(h, p, opts).end <= h.len(),
    ensures
        read_survey(later, p, opts) == read_survey(h, p, opts),
        p <= read_survey(h, p, opts).end,
{
    reveal(read_survey);
    let known = read_ground(h, p, opts);
    assert(known.fits);
    if let Ok(g) = known.value {
        let locals = read_locals(h, known.end, g, opts.include_remote_only);
        assert(locals.fits);
        if known.end <= h.len() && locals.end <= h.len() {
            lemma_ground_stays(h, later, p, opts);
            lemma_locals_stay(h, later, known.end, g, opts.include_remote_only);
        }
    } else {
        lemma_ground_stays(h, later, p, opts);
    }
}

} // verus!
