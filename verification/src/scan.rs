//! Detection: which branches are stale, and how we know.

pub mod base;
pub mod course;
pub mod evidence;
pub mod findings;
pub mod grounds;
pub mod laws;
pub mod order;
pub mod probe;
pub mod protect;
pub mod refs;
pub mod repeat;
pub mod survey;
pub mod verdicts;

use vstd::prelude::*;

use crate::cache::{Cache, CacheView};
use crate::git::{self, clone_option, Error, Exchange, Git, Reading};
use crate::progress::{Event, Reporter};
use crate::scan::survey::{survey, Survey, SurveyView};
use crate::scan::verdicts::{
    branches_to_probe, conclude, consult, distinct_forks, fork_points, probe_pending, walk_base,
    Pending, PendingView, Probed, ProbedView, Walk,
};

verus! {

/// How we concluded a branch is safe to trim, ordered by confidence.
#[derive(Debug, Clone, Copy, PartialEq, Eq, PartialOrd, Ord, Structural)]
pub enum MergeKind {
    /// Tip is an ancestor of the base branch (ancestry check).
    Merged,
    /// The branch squashed into one diff matches a patch already in base
    /// (GitHub "Squash and merge").
    Squash,
    /// Every branch commit's patch already exists in base individually
    /// (GitHub "Rebase and merge").
    Rebase,
    /// The tracked upstream was deleted; the branch itself may be unmerged.
    Gone,
}

/// Where a deletion candidate lives. Remote-only candidates are acted on
/// exclusively through the TUI confirmation: `--yes --remote` must not turn
/// into a broad remote-pruning command.
#[derive(Debug, Clone, Copy, PartialEq, Eq, PartialOrd, Ord, Structural)]
pub enum CandidateScope {
    Local,
    RemoteOnly,
}

/// The branch everything is compared against.
#[derive(Debug)]
pub struct Base {
    /// User-facing name (e.g. "origin/main").
    pub name: String,
    /// Full refname when the base is a ref (e.g. "refs/remotes/origin/main").
    /// None when --base was given a raw commit.
    pub refname: Option<String>,
    /// Resolved tip. Part of every cache key: everything the base gained
    /// since a fork point is exactly what squash/rebase detection compares
    /// against, so a moved base must invalidate cached verdicts.
    pub sha: String,
}

/// What a [`Base`] holds.
pub struct BaseView {
    pub name: Seq<char>,
    pub refname: Option<Seq<char>>,
    pub sha: Seq<char>,
}

impl View for Base {
    type V = BaseView;

    open spec fn view(&self) -> BaseView {
        BaseView { name: self.name@, refname: self.refname.deep_view(), sha: self.sha@ }
    }
}

impl BaseView {
    /// The rev to feed to git commands.
    pub open spec fn rev(self) -> Seq<char> {
        match self.refname {
            Some(r) => r,
            None => self.name,
        }
    }
}

impl Base {
    /// The rev to feed to git commands. The FULL name whenever we have one:
    /// a local branch literally named "origin/main" would shadow the
    /// remote-tracking ref under gitrevisions short-name resolution.
    pub fn rev(&self) -> (r: &str)
        ensures
            r@ == self@.rev(),
    {
        match &self.refname {
            Some(r) => r.as_str(),
            None => self.name.as_str(),
        }
    }
}

impl Clone for Base {
    fn clone(&self) -> (b: Base)
        ensures
            b@ == self@,
    {
        Base {
            name: self.name.clone(),
            refname: clone_option(&self.refname),
            sha: self.sha.clone(),
        }
    }
}

/// A branch that may be trimmed.
#[derive(Debug)]
pub struct Candidate {
    pub name: String,
    /// Full refname ("refs/heads/<name>"); unambiguous, unlike short names
    /// that can collide with tags.
    pub refname: String,
    /// Tip OID at scan time; deletion re-verifies against it (undo anchor).
    pub sha: String,
    pub kind: MergeKind,
    pub scope: CandidateScope,
    pub upstream: Option<String>,
    pub remote_name: Option<String>,
    pub upstream_gone: bool,
    pub last_commit_unix: i64,
    pub subject: String,
    /// Full upstream refname, e.g. "refs/remotes/origin/feat".
    pub upstream_ref: Option<String>,
}

/// What a [`Candidate`] holds.
pub struct CandidateView {
    pub name: Seq<char>,
    pub refname: Seq<char>,
    pub sha: Seq<char>,
    pub kind: MergeKind,
    pub scope: CandidateScope,
    pub upstream: Option<Seq<char>>,
    pub remote_name: Option<Seq<char>>,
    pub upstream_gone: bool,
    pub last_commit_unix: i64,
    pub subject: Seq<char>,
    pub upstream_ref: Option<Seq<char>>,
}

impl View for Candidate {
    type V = CandidateView;

    open spec fn view(&self) -> CandidateView {
        CandidateView {
            name: self.name@,
            refname: self.refname@,
            sha: self.sha@,
            kind: self.kind,
            scope: self.scope,
            upstream: self.upstream.deep_view(),
            remote_name: self.remote_name.deep_view(),
            upstream_gone: self.upstream_gone,
            last_commit_unix: self.last_commit_unix,
            subject: self.subject@,
            upstream_ref: self.upstream_ref.deep_view(),
        }
    }
}

impl DeepView for Candidate {
    type V = CandidateView;

    open spec fn deep_view(&self) -> CandidateView {
        self@
    }
}

impl CandidateView {
    /// Merged, squash and rebase are verified; gone is not.
    pub open spec fn selected_by_default(self) -> bool {
        self.kind != MergeKind::Gone
    }

    /// Only an ancestor of the base is merged in git's own sense.
    pub open spec fn needs_force(self) -> bool {
        self.kind != MergeKind::Merged
    }
}

impl Candidate {
    /// Merged/squash/rebase are verified; gone branches need a human opt-in.
    pub fn selected_by_default(&self) -> (r: bool)
        ensures
            r == self@.selected_by_default(),
    {
        self.kind != MergeKind::Gone
    }

    /// Whether deletion requires `git branch -D` rather than `-d`.
    pub fn needs_force(&self) -> (r: bool)
        ensures
            r == self@.needs_force(),
    {
        self.kind != MergeKind::Merged
    }
}

impl Clone for Candidate {
    fn clone(&self) -> (c: Candidate)
        ensures
            c@ == self@,
    {
        Candidate {
            name: self.name.clone(),
            refname: self.refname.clone(),
            sha: self.sha.clone(),
            kind: self.kind,
            scope: self.scope,
            upstream: clone_option(&self.upstream),
            remote_name: clone_option(&self.remote_name),
            upstream_gone: self.upstream_gone,
            last_commit_unix: self.last_commit_unix,
            subject: self.subject.clone(),
            upstream_ref: clone_option(&self.upstream_ref),
        }
    }
}

/// What a scan found.
#[derive(Debug)]
pub struct Scan {
    pub base: Base,
    pub candidates: Vec<Candidate>,
    pub warnings: Vec<String>,
}

/// What a [`Scan`] holds.
pub struct ScanView {
    pub base: BaseView,
    pub candidates: Seq<CandidateView>,
    pub warnings: Seq<Seq<char>>,
}

impl View for Scan {
    type V = ScanView;

    open spec fn view(&self) -> ScanView {
        ScanView {
            base: self.base@,
            candidates: self.candidates.deep_view(),
            warnings: self.warnings.deep_view(),
        }
    }
}

/// What the caller wants scanned, as opposed to how progress is reported or
/// where verdicts are cached.
pub struct Options<'a> {
    /// `--base`; None auto-detects.
    pub base: Option<&'a str>,
    /// Extra protected names or globs, on top of config and the defaults.
    pub protect: &'a [String],
    /// Scan worker threads, for whoever runs the stages of a scan on several.
    pub jobs: usize,
    /// Also scan remote branches that are merged into the base but have no
    /// local twin. Off by default so library-style callers and tests get the
    /// plain local scan.
    pub include_remote_only: bool,
}

/// What [`Options`] ask for.
pub struct OptionsView {
    pub base: Option<Seq<char>>,
    pub protect: Seq<Seq<char>>,
    pub include_remote_only: bool,
}

impl<'a> View for Options<'a> {
    type V = OptionsView;

    open spec fn view(&self) -> OptionsView {
        OptionsView {
            base: self.base.deep_view(),
            protect: self.protect.deep_view(),
            include_remote_only: self.include_remote_only,
        }
    }
}

/// What a scan leaves behind: what it found, the cache, and how many branches
/// it examined.
pub struct ScanOutcome {
    pub found: ScanView,
    pub cache: CacheView,
    pub examined: nat,
}

/// What follows the survey of a scan: fork points, the cache, the walks and
/// the probes. Every command names the shas that the survey resolved.
#[verifier::opaque]
pub open spec fn read_verdicts(
    h: Seq<Exchange>,
    p: int,
    s: SurveyView,
    cache: CacheView,
) -> Reading<ScanOutcome> {
    let base = s.base.sha;
    let branches = verdicts::to_probe(s);
    let c = verdicts::consulted(verdicts::with_forks(h, p, base, branches), base, cache);
    let walks = verdicts::read_walks(
        h,
        p + branches.len(),
        base,
        verdicts::distinct_forks_of(c.to_walk),
    );
    let probes = verdicts::read_probes(h, walks.end, c.to_walk, walks.items);
    Reading {
        fits: verdicts::forks_fit(h, p, base, branches) && walks.fits && probes.fits,
        end: probes.end,
        value: Ok(
            ScanOutcome {
                found: verdicts::concluded(s, c.known, c.to_walk, walks.items, probes.items),
                cache: verdicts::remembered(c.cache, base, probes.items, walks.items),
                examined: s.examinable.len(),
            },
        ),
    }
}

/// [`scan`]. Only the survey can fail it: whatever goes wrong with a single
/// branch becomes a warning.
pub open spec fn read_scan(h: Seq<Exchange>, p: int, opts: OptionsView, cache: CacheView) -> Reading<
    ScanOutcome,
> {
    let known = survey::read_survey(h, p, opts);
    match known.value {
        Err(e) => known.failing(e),
        Ok(s) => read_verdicts(h, known.end, s, cache).behind(known),
    }
}

/// The ticks that count from `from` to `to`.
pub open spec fn ticks(from: nat, to: nat, total: nat) -> Seq<Event> {
    Seq::new((to - from) as nat, |i: int| Event::Tick((from + i + 1) as usize, total as usize))
}

/// Counts from `from` to `to`.
fn count<R: Reporter>(reporter: &mut R, from: usize, to: usize, total: usize)
    requires
        from <= to <= total,
    ensures
        final(reporter).events() == old(reporter).events() + ticks(
            from as nat,
            to as nat,
            total as nat,
        ),
{
    let ghost start = reporter.events();
    let mut done: usize = from;
    assert(start + ticks(from as nat, from as nat, total as nat) =~= start);
    while done < to
        invariant
            from <= done <= to <= total,
            reporter.events() == start + ticks(from as nat, done as nat, total as nat),
        decreases to - done,
    {
        let ghost earlier = ticks(from as nat, done as nat, total as nat);
        reporter.tick(done + 1, total);
        assert((start + earlier).push(Event::Tick((done + 1) as usize, total)) =~= start + ticks(
            from as nat,
            (done + 1) as nat,
            total as nat,
        ));
        done += 1;
    }
}

/// Probes every pending branch and counts it.
fn probe_all<G: Git, R: Reporter>(
    git: &mut G,
    to_walk: &Vec<Pending>,
    walks: &Vec<Walk>,
    reporter: &mut R,
    total: usize,
) -> (r: Vec<Probed>)
    requires
        to_walk@.len() <= total,
    ensures
        git::extends(old(git).history(), final(git).history()),
        ({
            let s = verdicts::read_probes(
                final(git).history(),
                old(git).history().len() as int,
                to_walk.deep_view(),
                walks.deep_view(),
            );
            s.fits && s.end == final(git).history().len() && s.items == r.deep_view()
        }),
        final(reporter).events() == old(reporter).events() + ticks(
            (total - to_walk@.len()) as nat,
            total as nat,
            total as nat,
        ),
{
    let mut r: Vec<Probed> = Vec::new();
    let mut i: usize = 0;
    let first: usize = total - to_walk.len();
    let ghost start = git.history();
    let ghost p = start.len() as int;
    let ghost all = to_walk.deep_view();
    let ghost told = reporter.events();
    assert(all.take(0) =~= Seq::<PendingView>::empty());
    assert(r.deep_view() =~= Seq::<ProbedView>::empty());
    assert(told + ticks(first as nat, first as nat, total as nat) =~= told);
    while i < to_walk.len()
        invariant
            i <= to_walk@.len(),
            first + to_walk@.len() == total,
            all == to_walk.deep_view(),
            start == old(git).history(),
            p == start.len(),
            git::extends(start, git.history()),
            verdicts::read_probes(
                git.history(),
                p,
                all.take(i as int),
                walks.deep_view(),
            ).fits,
            verdicts::read_probes(
                git.history(),
                p,
                all.take(i as int),
                walks.deep_view(),
            ).end == git.history().len(),
            verdicts::read_probes(
                git.history(),
                p,
                all.take(i as int),
                walks.deep_view(),
            ).items == r.deep_view(),
            reporter.events() == told + ticks(first as nat, (first + i) as nat, total as nat),
        decreases to_walk@.len() - i,
    {
        let ghost before = git.history();
        let ghost earlier = r.deep_view();
        let outcome = probe_pending(git, &to_walk[i], walks);
        let b = Probed { pending: to_walk[i].clone(), outcome };
        let ghost v = b@;
        r.push(b);
        reporter.tick(first + i + 1, total);
        proof {
            verdicts::lemma_probes_stay(
                before,
                git.history(),
                p,
                all.take(i as int),
                walks.deep_view(),
            );
            assert(r.deep_view() =~= earlier.push(v));
            assert(all.take(i + 1).drop_last() =~= all.take(i as int));
            assert(all.take(i + 1).last() == to_walk@[i as int]@);
            assert((told + ticks(first as nat, (first + i) as nat, total as nat)).push(
                Event::Tick((first + i + 1) as usize, total),
            ) =~= told + ticks(first as nat, (first + i + 1) as nat, total as nat));
        }
        i += 1;
    }
    assert(all.take(i as int) =~= all);
    r
}

/// Finds the branches that may be trimmed. The commands are asked one at a
/// time; the stages it is made of can also be run by several workers.
pub fn scan<'a, G: Git, R: Reporter>(
    git: &mut G,
    opts: &Options<'a>,
    reporter: &mut R,
    cache: &mut Cache,
) -> (r: Result<Scan, Error>)
    ensures
        git::extends(old(git).history(), final(git).history()),
        ({
            let told = read_scan(
                final(git).history(),
                old(git).history().len() as int,
                opts@,
                old(cache)@,
            );
            &&& told.fits
            &&& told.end == final(git).history().len()
            &&& match told.value {
                Ok(outcome) => {
                    &&& r matches Ok(found) && found@ == outcome.found
                    &&& final(cache)@ == outcome.cache
                    &&& final(reporter).events() == (old(reporter).events() + ticks(
                        0,
                        outcome.examined,
                        outcome.examined,
                    )).push(Event::Finish)
                },
                Err(e) => {
                    &&& r matches Err(f) && f@ == e
                    &&& final(cache)@ == old(cache)@
                    &&& final(reporter).events() == old(reporter).events()
                },
            }
        }),
{
    let ghost h0 = git.history();
    let s = match survey(git, opts) {
        Ok(s) => s,
        Err(e) => return Err(e),
    };
    let ghost h1 = git.history();
    let found = judge(git, &s, reporter, cache);
    proof {
        survey::lemma_survey_stays(h1, git.history(), h0.len() as int, opts@);
    }
    Ok(found)
}

/// What follows the survey of a scan.
fn judge<G: Git, R: Reporter>(
    git: &mut G,
    s: &Survey,
    reporter: &mut R,
    cache: &mut Cache,
) -> (r: Scan)
    ensures
        git::extends(old(git).history(), final(git).history()),
        ({
            let told = read_verdicts(
                final(git).history(),
                old(git).history().len() as int,
                s@,
                old(cache)@,
            );
            &&& told.fits
            &&& told.end == final(git).history().len()
            &&& told.value matches Ok(outcome)
            &&& r@ == outcome.found
            &&& final(cache)@ == outcome.cache
            &&& final(reporter).events() == (old(reporter).events() + ticks(
                0,
                outcome.examined,
                outcome.examined,
            )).push(Event::Finish)
        }),
{
    let ghost h1 = git.history();
    let ghost e0 = reporter.events();
    let total = s.examinable.len();
    let branches = branches_to_probe(s);
    // Ancestry already answered these, or there is no history to probe them
    // by. They still tick: a counter that stops short of its total reads as
    // an aborted scan.
    count(reporter, 0, total - branches.len(), total);
    let pending = fork_points(git, &s.base, &branches);
    let ghost h2 = git.history();
    let c = consult(&pending, &s.base, cache);
    count(reporter, total - branches.len(), total - c.to_walk.len(), total);
    let forks = distinct_forks(&c.to_walk);
    let walks = walk_base(git, &s.base, &forks);
    let ghost h3 = git.history();
    let probed = probe_all(git, &c.to_walk, &walks, reporter, total);
    let ghost h4 = git.history();
    proof {
        let base = s.base.sha@;
        let k1 = (total - branches@.len()) as nat;
        let k2 = (total - c.to_walk@.len()) as nat;
        let n = total as nat;
        assert(ticks(0, k1, n) + ticks(k1, k2, n) + ticks(k2, n, n) =~= ticks(0, n, n));
        assert(e0 + ticks(0, k1, n) + ticks(k1, k2, n) + ticks(k2, n, n) =~= e0 + ticks(0, n, n));
        verdicts::lemma_forks_stay(h2, h4, h1.len() as int, base, branches.deep_view());
        verdicts::lemma_walks_stay(h3, h4, h2.len() as int, base, forks.deep_view());
        reveal(read_verdicts);
    }
    let found = conclude(s, c, &walks, &probed, cache);
    reporter.finish();
    found
}

} // verus!
