//! One run from start to end: what is asked before the scan, and what a
//! finished scan leads to.

use vstd::prelude::*;

use crate::cli::{Cli, Mode};
use crate::git::{self, Error, Exchange, Git, Reading};
use crate::list;
use crate::ops::{DeletionResult, DeletionView, PlanView, PlannedDeletion};
use crate::scan::{
    Candidate, CandidateScope, CandidateView, MergeKind, Options, Scan, ScanView,
};
use crate::text;

verus! {

/// Asks where the repository is, so that a run outside of one fails early.
pub open spec fn repository_args() -> Seq<Seq<char>> {
    seq!["rev-parse"@, "--git-dir"@]
}

pub open spec fn fetch_args() -> Seq<Seq<char>> {
    seq!["fetch"@, "--prune"@, "--quiet"@]
}

/// Asks for the directory that verdicts are kept in.
pub open spec fn git_dir_args() -> Seq<Seq<char>> {
    seq!["rev-parse"@, "--absolute-git-dir"@]
}

/// What is known of a repository before it is scanned.
pub struct Opened {
    /// Why the remote refs may be stale.
    pub fetch_warning: Option<String>,
    /// Where verdicts are kept between runs, unless they are not.
    pub git_dir: Option<String>,
}

/// What an [`Opened`] holds.
pub struct OpenedView {
    pub fetch_warning: Option<Seq<char>>,
    pub git_dir: Option<Seq<char>>,
}

impl View for Opened {
    type V = OpenedView;

    open spec fn view(&self) -> OpenedView {
        OpenedView {
            fetch_warning: self.fetch_warning.deep_view(),
            git_dir: self.git_dir.deep_view(),
        }
    }
}

/// What is said of a fetch that failed.
pub open spec fn fetch_warning(e: git::ErrorView) -> Seq<char> {
    "fetch failed, scanning with possibly stale remote refs: "@ + e.chain()
}

/// The fetch, if there is one. Offline must not block a purely local scan.
pub open spec fn read_fetch(h: Seq<Exchange>, p: int, fetch: bool) -> Reading<Option<Seq<char>>> {
    if fetch {
        let fetched = git::read_output(h, p, fetch_args());
        match fetched.value {
            Ok(_) => fetched.with(None),
            Err(e) => fetched.with(Some(fetch_warning(e))),
        }
    } else {
        Reading::settled(p, None)
    }
}

/// Where verdicts are kept; `--no-cache` demands a cold re-verification.
pub open spec fn read_git_dir(h: Seq<Exchange>, p: int, no_cache: bool) -> Reading<
    Option<Seq<char>>,
> {
    if no_cache {
        Reading::settled(p, None)
    } else {
        let dir = git::read_output(h, p, git_dir_args());
        match dir.value {
            Ok(out) => dir.with(Some(text::trim(out))),
            Err(_) => dir.with(None),
        }
    }
}

/// [`open_repository`]: only the first question can fail it.
pub open spec fn read_opening(h: Seq<Exchange>, p: int, fetch: bool, no_cache: bool) -> Reading<
    OpenedView,
> {
    let found = git::read_output(h, p, repository_args());
    match found.value {
        Err(e) => found.failing(e),
        Ok(_) => {
            let fetched = read_fetch(h, found.end, fetch).behind(found);
            let dir = read_git_dir(h, fetched.end, no_cache).behind(fetched);
            dir.with(
                OpenedView { fetch_warning: fetched.value->Ok_0, git_dir: dir.value->Ok_0 },
            )
        },
    }
}

/// Finds the repository, brings the remote refs up to date if asked to, and
/// says where verdicts are kept.
pub fn open_repository<G: Git>(git: &mut G, cli: &Cli) -> (r: Result<Opened, Error>)
    ensures
        read_opening(
            final(git).history(),
            old(git).history().len() as int,
            cli.fetch,
            cli.no_cache,
        ).is_told(
            old(git).history(),
            final(git).history(),
            match r {
                Ok(o) => Ok(o@),
                Err(e) => Err(e@),
            },
        ),
{
    let reply = git.run(&["rev-parse", "--git-dir"]);
    assert(git.history().last().args =~= repository_args());
    if let Err(e) = reply {
        return Err(e);
    }
    // Fetch runs before the TUI takes the terminal, so credential helpers can
    // still prompt.
    let mut warning: Option<String> = None;
    if cli.fetch {
        let reply = git.run(&["fetch", "--prune", "--quiet"]);
        assert(git.history().last().args =~= fetch_args());
        if let Err(e) = reply {
            warning = Some(
                "fetch failed, scanning with possibly stale remote refs: ".to_owned().concat(
                    e.chain().as_str(),
                ),
            );
        }
    }
    let mut git_dir: Option<String> = None;
    if !cli.no_cache {
        let reply = git.run(&["rev-parse", "--absolute-git-dir"]);
        assert(git.history().last().args =~= git_dir_args());
        if let Ok(out) = reply {
            git_dir = Some(text::trimmed(out.as_str()));
        }
    }
    Ok(Opened { fetch_warning: warning, git_dir })
}

/// What the flags want scanned. Branches that only a remote has are always
/// shown.
pub fn scan_options<'a>(cli: &'a Cli, jobs: usize) -> (o: Options<'a>)
    ensures
        o@.base == cli.base.deep_view(),
        o@.protect == cli.protect.deep_view(),
        o@.include_remote_only,
        o.jobs == jobs,
{
    let base = match &cli.base {
        Some(b) => Some(b.as_str()),
        None => None,
    };
    Options { base, protect: cli.protect.as_slice(), jobs, include_remote_only: true }
}

/// The scan as it is reported: a failed fetch is warned of behind the scan's
/// own warnings, and changes nothing else.
pub open spec fn reported_of(scan: ScanView, opened: OpenedView) -> ScanView {
    ScanView {
        warnings: scan.warnings + match opened.fetch_warning {
            Some(w) => seq![w],
            None => Seq::empty(),
        },
        ..scan
    }
}

/// The scan as it is reported.
pub fn reported(scan: Scan, opened: &Opened) -> (s: Scan)
    ensures
        s@ == reported_of(scan@, opened@),
{
    let ghost before = scan@;
    let mut s = scan;
    match &opened.fetch_warning {
        Some(w) => {
            s.warnings.push(w.clone());
            assert(s@.warnings =~= before.warnings + seq![w@]);
        },
        None => {
            assert(s@.warnings =~= before.warnings + Seq::<Seq<char>>::empty());
        },
    }
    s
}

/// What `--yes` deletes without a question: verified local candidates, and
/// gone ones with explicit consent. Remote-only cleanup is manual.
pub open spec fn auto_deleted(c: CandidateView, include_gone: bool) -> bool {
    &&& c.scope == CandidateScope::Local
    &&& c.selected_by_default() || (include_gone && c.kind == MergeKind::Gone)
}

/// The deletions that `--yes` plans, in the order of the candidates.
pub open spec fn auto_plans(cs: Seq<CandidateView>, include_gone: bool, remote: bool) -> Seq<
    PlanView,
>
    decreases cs.len(),
{
    if cs.len() == 0 {
        Seq::empty()
    } else {
        let earlier = auto_plans(cs.drop_last(), include_gone, remote);
        if auto_deleted(cs.last(), include_gone) {
            earlier.push(PlanView { candidate: cs.last(), delete_remote: remote })
        } else {
            earlier
        }
    }
}

/// The deletions that `--yes` plans.
pub fn plan_all(cs: &Vec<Candidate>, include_gone: bool, remote: bool) -> (r: Vec<PlannedDeletion>)
    ensures
        r.deep_view() == auto_plans(cs.deep_view(), include_gone, remote),
{
    let mut r: Vec<PlannedDeletion> = Vec::new();
    let mut i: usize = 0;
    let ghost all = cs.deep_view();
    assert(all.take(0) =~= Seq::<CandidateView>::empty());
    assert(r.deep_view() =~= Seq::<PlanView>::empty());
    while i < cs.len()
        invariant
            i <= cs@.len(),
            all == cs.deep_view(),
            r.deep_view() == auto_plans(all.take(i as int), include_gone, remote),
        decreases cs@.len() - i,
    {
        let ghost earlier = r.deep_view();
        let c = &cs[i];
        assert(all.take(i + 1).drop_last() =~= all.take(i as int));
        assert(all.take(i + 1).last() == c@);
        if c.scope == CandidateScope::Local && (c.selected_by_default() || (include_gone && c.kind
            == MergeKind::Gone)) {
            r.push(PlannedDeletion { candidate: c.clone(), delete_remote: remote });
            assert(r.deep_view() =~= earlier.push(
                PlanView { candidate: c@, delete_remote: remote },
            ));
        }
        i += 1;
    }
    assert(all.take(i as int) =~= all);
    r
}

/// What follows a scan.
pub enum Step {
    /// Print the listing, for people or for machines.
    List { json: bool },
    /// Print the report of an execution that had nothing to delete.
    NothingDone,
    /// Delete these, and print the report.
    Execute(Vec<PlannedDeletion>),
    /// Open the TUI.
    Tui,
}

/// What a [`Step`] holds.
pub enum StepView {
    List { json: bool },
    NothingDone,
    Execute(Seq<PlanView>),
    Tui,
}

impl View for Step {
    type V = StepView;

    open spec fn view(&self) -> StepView {
        match *self {
            Step::List { json } => StepView::List { json },
            Step::NothingDone => StepView::NothingDone,
            Step::Execute(plans) => StepView::Execute(plans.deep_view()),
            Step::Tui => StepView::Tui,
        }
    }
}

/// What follows a scan. Nothing auto-deletable still shows what exists
/// (gone-only repos get the list plus the consent tip), and the terminal is
/// not taken over just to say there is no work.
pub open spec fn step_after(cli: Cli, mode: Mode, cs: Seq<CandidateView>) -> StepView {
    match mode {
        Mode::Execute => {
            let plans = auto_plans(cs, cli.include_gone, cli.remote);
            if plans.len() > 0 {
                StepView::Execute(plans)
            } else if cli.json {
                StepView::NothingDone
            } else {
                StepView::List { json: false }
            }
        },
        Mode::Tui => if cs.len() > 0 {
            StepView::Tui
        } else {
            StepView::List { json: false }
        },
        _ => StepView::List { json: cli.json },
    }
}

/// What follows a scan. A run that only generates text has none.
pub fn next_step(cli: &Cli, mode: Mode, scan: &Scan) -> (s: Step)
    requires
        mode != Mode::Generate,
    ensures
        s@ == step_after(*cli, mode, scan@.candidates),
{
    match mode {
        Mode::Execute => {
            let plans = plan_all(&scan.candidates, cli.include_gone, cli.remote);
            if plans.len() > 0 {
                assert(plans.deep_view().len() > 0);
                Step::Execute(plans)
            } else if cli.json {
                assert(plans.deep_view().len() == 0);
                Step::NothingDone
            } else {
                assert(plans.deep_view().len() == 0);
                Step::List { json: false }
            }
        },
        Mode::Tui => if scan.candidates.len() > 0 {
            Step::Tui
        } else {
            Step::List { json: false }
        },
        _ => Step::List { json: cli.json },
    }
}

/// One of the deletions failed.
pub open spec fn any_failed(rs: Seq<DeletionView>) -> bool {
    exists|i: int| 0 <= i < rs.len() && (#[trigger] rs[i]).failed()
}

/// Whether one of the deletions failed.
pub fn has_failed(rs: &[DeletionResult]) -> (r: bool)
    ensures
        r == any_failed(rs.deep_view()),
{
    let mut i: usize = 0;
    while i < rs.len()
        invariant
            i <= rs@.len(),
            forall|k: int| 0 <= k < i ==> !(#[trigger] rs.deep_view()[k]).failed(),
        decreases rs@.len() - i,
    {
        assert(rs.deep_view()[i as int] == rs@[i as int]@);
        if rs[i].failed() {
            return true;
        }
        i += 1;
    }
    false
}

/// The exit code of a run that got as far as deleting: 1 if some deletions
/// failed.
pub fn exit_code(rs: &[DeletionResult]) -> (code: u8)
    ensures
        code == if any_failed(rs.deep_view()) {
            1u8
        } else {
            0u8
        },
{
    if has_failed(rs) {
        1
    } else {
        0
    }
}

/// `--yes` deletes local candidates only, each of them one of the scan's, and
/// a gone one only with explicit consent.
pub proof fn law_yes_needs_verified_or_consented(
    cs: Seq<CandidateView>,
    include_gone: bool,
    remote: bool,
    k: int,
)
    requires
        0 <= k < auto_plans(cs, include_gone, remote).len(),
    ensures
        ({
            let plan = auto_plans(cs, include_gone, remote)[k];
            &&& cs.contains(plan.candidate)
            &&& plan.candidate.scope == CandidateScope::Local
            &&& plan.candidate.kind == MergeKind::Gone ==> include_gone
            &&& plan.delete_remote == remote
        }),
    decreases cs.len(),
{
    let earlier = auto_plans(cs.drop_last(), include_gone, remote);
    if k < earlier.len() {
        law_yes_needs_verified_or_consented(cs.drop_last(), include_gone, remote, k);
        let c = earlier[k].candidate;
        let j = choose|j: int| 0 <= j < cs.drop_last().len() && cs.drop_last()[j] == c;
        assert(cs[j] == c);
    } else {
        assert(cs[cs.len() - 1] == cs.last());
    }
}

/// A failed fetch stops nothing: the repository is opened all the same, what
/// is reported is what the scan found, with one more warning behind its own,
/// and what follows the scan is what would have followed it. A fetch that
/// succeeded, or none, leaves no trace.
pub proof fn law_failed_fetch_only_warns(
    h: Seq<Exchange>,
    p: int,
    cli: Cli,
    mode: Mode,
    scan: ScanView,
)
    requires
        h[p].reply is Ok,
    ensures
        read_opening(h, p, cli.fetch, cli.no_cache).value is Ok,
        ({
            let opened = read_opening(h, p, cli.fetch, cli.no_cache).value->Ok_0;
            let shown = reported_of(scan, opened);
            &&& shown.base == scan.base
            &&& shown.candidates == scan.candidates
            &&& shown.warnings == if cli.fetch && h[p + 1].reply is Err {
                scan.warnings.push(fetch_warning(h[p + 1].reply->Err_0))
            } else {
                scan.warnings
            }
            &&& step_after(cli, mode, shown.candidates) == step_after(cli, mode, scan.candidates)
        }),
        forall|e: git::ErrorView| "fetch failed"@.is_prefix_of(#[trigger] fetch_warning(e)),
{
    let opened = read_opening(h, p, cli.fetch, cli.no_cache).value->Ok_0;
    let shown = reported_of(scan, opened);
    match opened.fetch_warning {
        Some(w) => {
            assert(shown.warnings =~= scan.warnings.push(w));
        },
        None => {
            assert(shown.warnings =~= scan.warnings);
        },
    }
    reveal_strlit("fetch failed");
    reveal_strlit("fetch failed, scanning with possibly stale remote refs: ");
    assert forall|e: git::ErrorView| "fetch failed"@.is_prefix_of(
        #[trigger] fetch_warning(e),
    ) by {
        assert("fetch failed"@ =~= fetch_warning(e).take("fetch failed"@.len() as int));
    }
}

/// Nothing is fetched unless it was asked for, and the directory of the cache
/// is not even looked for when the cache is off.
pub proof fn law_network_and_cache_are_opt_in_and_opt_out(
    h: Seq<Exchange>,
    p: int,
    fetch: bool,
    no_cache: bool,
    i: int,
)
    requires
        read_opening(h, p, fetch, no_cache).fits,
        p <= i < read_opening(h, p, fetch, no_cache).end,
    ensures
        !fetch ==> h[i].args != fetch_args(),
        no_cache ==> h[i].args != git_dir_args(),
        !fetch && no_cache ==> i == p,
{
    reveal_strlit("rev-parse");
    reveal_strlit("fetch");
    reveal_strlit("--git-dir");
    reveal_strlit("--absolute-git-dir");
    assert("rev-parse"@.len() == 9 && "fetch"@.len() == 5);
    assert("--git-dir"@.len() == 9 && "--absolute-git-dir"@.len() == 18);
    assert(repository_args()[0] == "rev-parse"@ && fetch_args()[0] == "fetch"@);
    assert(git_dir_args()[0] == "rev-parse"@);
    assert(repository_args()[1] == "--git-dir"@ && git_dir_args()[1] == "--absolute-git-dir"@);
}

/// `--yes` is complete: every local candidate that is merged, squashed or
/// rebased is planned for, and with consent every gone one; a gone one without
/// consent and a branch that only a remote has are not. The remote half is
/// planned exactly if it was asked for.
pub proof fn law_yes_plans_every_verified_branch(
    cs: Seq<CandidateView>,
    include_gone: bool,
    remote: bool,
    plan: PlanView,
)
    ensures
        auto_plans(cs, include_gone, remote).contains(plan) <==> {
            &&& cs.contains(plan.candidate)
            &&& plan.delete_remote == remote
            &&& plan.candidate.scope == CandidateScope::Local
            &&& match plan.candidate.kind {
                MergeKind::Merged | MergeKind::Squash | MergeKind::Rebase => true,
                MergeKind::Gone => include_gone,
            }
        },
    decreases cs.len(),
{
    let all = auto_plans(cs, include_gone, remote);
    if cs.len() > 0 {
        law_yes_plans_every_verified_branch(cs.drop_last(), include_gone, remote, plan);
        list::lemma_last_or_before(cs, plan.candidate);
        let earlier = auto_plans(cs.drop_last(), include_gone, remote);
        if all.len() > earlier.len() {
            list::lemma_last_or_before(all, plan);
            assert(all.drop_last() =~= earlier);
        }
    }
}

/// The plans keep the order of the candidates, and each candidate has at most
/// one: what is planned for two lists is planned for one after the other.
pub proof fn law_plans_keep_the_order(
    first: Seq<CandidateView>,
    second: Seq<CandidateView>,
    include_gone: bool,
    remote: bool,
)
    ensures
        auto_plans(first + second, include_gone, remote) == auto_plans(first, include_gone, remote)
            + auto_plans(second, include_gone, remote),
        first.len() == 1 ==> auto_plans(first, include_gone, remote).len() <= 1,
    decreases second.len(),
{
    let all = first + second;
    if second.len() == 0 {
        assert(all =~= first);
        assert(auto_plans(first, include_gone, remote) + auto_plans(second, include_gone, remote)
            =~= auto_plans(first, include_gone, remote));
    } else {
        law_plans_keep_the_order(first, second.drop_last(), include_gone, remote);
        assert(all.drop_last() =~= first + second.drop_last());
        assert(all.last() == second.last());
        assert(auto_plans(all, include_gone, remote) =~= auto_plans(first, include_gone, remote)
            + auto_plans(second, include_gone, remote));
    }
    if first.len() == 1 {
        assert(auto_plans(first.drop_last(), include_gone, remote).len() == 0);
    }
}

/// What follows a scan. `--yes` deletes what it planned; with nothing to
/// delete it still reports, for a machine as an execution without results and
/// for people as the listing. Without `--yes` nothing is deleted: the TUI
/// opens if there is anything to show in it, and otherwise the listing is
/// printed, as JSON exactly if that was asked for.
pub proof fn law_steps_follow_the_mode(cli: Cli, mode: Mode, cs: Seq<CandidateView>)
    ensures
        ({
            let step = step_after(cli, mode, cs);
            let plans = auto_plans(cs, cli.include_gone, cli.remote);
            &&& step is Execute <==> mode == Mode::Execute && plans.len() > 0
            &&& step is Execute ==> step->Execute_0 == plans
            &&& step is Tui <==> mode == Mode::Tui && cs.len() > 0
            &&& step is NothingDone <==> mode == Mode::Execute && plans.len() == 0 && cli.json
            &&& step is List ==> (step->json <==> cli.json && mode != Mode::Tui && mode
                != Mode::Execute)
        }),
{
}

/// The exit code tells of failures: some deletion failed exactly if one of the
/// results has a failed half.
pub proof fn law_failures_are_noticed(rs: Seq<DeletionView>)
    ensures
        any_failed(rs) <==> exists|i: int|
            0 <= i < rs.len() && ((#[trigger] rs[i]).local is Failed || rs[i].remote is Failed),
{
    if exists|i: int|
        0 <= i < rs.len() && ((#[trigger] rs[i]).local is Failed || rs[i].remote is Failed) {
        let i = choose|i: int|
            0 <= i < rs.len() && ((#[trigger] rs[i]).local is Failed || rs[i].remote is Failed);
        assert(rs[i].failed());
    }
    if any_failed(rs) {
        let i = choose|i: int| 0 <= i < rs.len() && (#[trigger] rs[i]).failed();
        assert(rs[i].local is Failed || rs[i].remote is Failed);
    }
}

/// How a repository is opened, command by command: it is looked for first, and
/// without one nothing else is asked; the fetch prunes, and comes before the
/// directory of the cache is asked for, whose answer is taken without its line
/// ending. A fetch that failed is told of in full, with git's own reason.
pub proof fn law_opening_step_by_step(h: Seq<Exchange>, p: int, fetch: bool, no_cache: bool)
    requires
        read_opening(h, p, fetch, no_cache).fits,
    ensures
        git::is_ask(h, p, seq!["rev-parse"@, "--git-dir"@]),
        h[p].reply is Err ==> read_opening(h, p, fetch, no_cache).end == p + 1 && read_opening(
            h,
            p,
            fetch,
            no_cache,
        ).value == Err::<OpenedView, _>(h[p].reply->Err_0),
        h[p].reply is Ok ==> ({
            let run = read_opening(h, p, fetch, no_cache);
            let o = run.value->Ok_0;
            let n = if fetch {
                p + 2
            } else {
                p + 1
            };
            &&& run.value is Ok
            &&& fetch ==> git::is_ask(h, p + 1, seq!["fetch"@, "--prune"@, "--quiet"@])
            &&& o.fetch_warning == if fetch && h[p + 1].reply is Err {
                let e = h[p + 1].reply->Err_0;
                Some(
                    "fetch failed, scanning with possibly stale remote refs: "@ + e.message + match
                        e.cause {
                        Some(cause) => ": "@ + cause,
                        None => Seq::empty(),
                    },
                )
            } else {
                None
            }
            &&& no_cache ==> run.end == n && o.git_dir is None
            &&& !no_cache ==> {
                &&& run.end == n + 1
                &&& git::is_ask(h, n, seq!["rev-parse"@, "--absolute-git-dir"@])
                &&& o.git_dir == match h[n].reply {
                    Ok((_, out)) => Some(text::trim(out)),
                    Err(_) => None,
                }
            }
        }),
{
    if fetch && h[p].reply is Ok && h[p + 1].reply is Err {
        let e = h[p + 1].reply->Err_0;
        match e.cause {
            Some(cause) => {
                assert(fetch_warning(e)
                    =~= "fetch failed, scanning with possibly stale remote refs: "@ + e.message + (
                ": "@ + cause));
            },
            None => {
                assert(fetch_warning(e)
                    =~= "fetch failed, scanning with possibly stale remote refs: "@ + e.message
                    + Seq::<char>::empty());
            },
        }
    }
}

/// What `plan_all` hands back: a plan for every local candidate that is
/// merged, squashed or rebased, and with consent for every gone one, each with
/// the remote half exactly if it was asked for, and no plan besides.
pub proof fn law_plan_all_leaves_none_out(
    cs: &Vec<Candidate>,
    include_gone: bool,
    remote: bool,
    r: Vec<PlannedDeletion>,
    plan: PlanView,
)
    requires
        call_ensures(plan_all, (cs, include_gone, remote), r),
    ensures
        r.deep_view().contains(plan) <==> {
            &&& cs.deep_view().contains(plan.candidate)
            &&& plan.delete_remote == remote
            &&& plan.candidate.scope == CandidateScope::Local
            &&& match plan.candidate.kind {
                MergeKind::Merged | MergeKind::Squash | MergeKind::Rebase => true,
                MergeKind::Gone => include_gone,
            }
        },
{
    law_yes_plans_every_verified_branch(cs.deep_view(), include_gone, remote, plan);
}

/// A run exits with one if either half of a deletion failed, and with zero
/// otherwise.
pub proof fn law_failures_show_in_the_exit_code(rs: &[DeletionResult], code: u8)
    requires
        call_ensures(exit_code, (rs,), code),
    ensures
        code == 0 || code == 1,
        code == 1 <==> exists|i: int|
            0 <= i < rs.deep_view().len() && ((#[trigger] rs.deep_view()[i]).local is Failed
                || rs.deep_view()[i].remote is Failed),
{
    law_failures_are_noticed(rs.deep_view());
}

/// The flags reach the scan as they are: the base, the patterns and the
/// workers that were asked for; branches that only a remote has are scanned
/// too.
pub proof fn law_flags_reach_the_scan<'a>(cli: &'a Cli, jobs: usize, o: Options<'a>)
    requires
        call_ensures(scan_options, (cli, jobs), o),
    ensures
        cli.base is None ==> o@.base is None,
        cli.base is Some ==> o@.base == Some(cli.base->Some_0@),
        o@.protect == cli.protect.deep_view(),
        o@.include_remote_only,
        o.jobs == jobs,
{
}

} // verus!
