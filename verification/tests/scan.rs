use git_barber::cache::{Cache, Key};
use git_barber::git::fake::FakeGit;
use git_barber::git::{Error, Git};
use git_barber::progress::{NullReporter, Reporter};
use git_barber::scan::base::{current_branch, resolve_base};
use git_barber::scan::course::Forking;
use git_barber::scan::probe::{merge_base, upstream_patch_ids};
use git_barber::scan::protect::glob_match;
use git_barber::scan::refs::RawBranch;
use git_barber::scan::survey::{survey, FORMAT};
use git_barber::scan::verdicts::probe_pending;
use git_barber::scan::{scan, MergeKind, Options};

const DIFF_FLAGS: [&str; 13] = [
    "--no-color",
    "--no-ext-diff",
    "--no-textconv",
    "--no-renames",
    "--no-relative",
    "--full-index",
    "--diff-algorithm=myers",
    "-U3",
    "--inter-hunk-context=0",
    "--src-prefix=a/",
    "--dst-prefix=b/",
    "--submodule=short",
    "--ignore-submodules=none",
];

#[derive(Default)]
struct RecordingReporter {
    ticks: Vec<(usize, usize)>,
    finished: bool,
}

impl Reporter for RecordingReporter {
    fn tick(&mut self, done: usize, total: usize) {
        self.ticks.push((done, total));
    }
    fn finish(&mut self) {
        self.finished = true;
    }
}

/// A repository with `main` as origin/HEAD and two ancestry-merged
/// branches, so the scan never reaches the patch-id probes.
fn two_merged_branches() -> FakeGit {
    let format = FORMAT;
    FakeGit::default()
        .on(
            &["symbolic-ref", "--quiet", "refs/remotes/origin/HEAD"],
            Ok("refs/remotes/origin/main\n"),
        )
        .on(
            &[
                "rev-parse",
                "--verify",
                "--quiet",
                "refs/remotes/origin/main^{commit}",
            ],
            Ok("base000\n"),
        )
        .on(&["symbolic-ref", "--quiet", "--short", "HEAD"], Ok("main\n"))
        .on(&["config", "--get-all", "barber.protect"], Err(""))
        .on(&["rev-parse", "--is-shallow-repository"], Ok("false\n"))
        .on(&["worktree", "list", "--porcelain"], Ok("branch refs/heads/main\n"))
        .on(
            &[
                "for-each-ref",
                "refs/heads",
                "--merged",
                "base000",
                "--format=%(refname)",
            ],
            Ok("refs/heads/feat-a\nrefs/heads/feat-b\n"),
        )
        .on(&["remote"], Ok("origin\n"))
        .on(
            &["for-each-ref", "refs/heads", format],
            Ok("refs/heads/feat-a\u{0}aaa111\u{0}refs/remotes/origin/feat-a\u{0}origin/feat-a\u{0}\u{0}origin\u{0}1700000000\u{0}add a\n\
                refs/heads/feat-b\u{0}bbb222\u{0}\u{0}\u{0}\u{0}\u{0}1700000100\u{0}add b\n"),
        )
}

/// Everything a scan needs up to and including the fork point, for one
/// unmerged branch. Deliberately cans NO probe commands: `FakeGit` bails
/// on unexpected argv, so any test using this fails loudly the moment a
/// probe runs.
fn up_to_the_fork_point() -> FakeGit {
    FakeGit::default()
        .on(
            &["symbolic-ref", "--quiet", "refs/remotes/origin/HEAD"],
            Ok("refs/remotes/origin/main\n"),
        )
        .on(
            &[
                "rev-parse",
                "--verify",
                "--quiet",
                "refs/remotes/origin/main^{commit}",
            ],
            Ok("basesha0\n"),
        )
        .on(
            &["symbolic-ref", "--quiet", "--short", "HEAD"],
            Ok("main\n"),
        )
        .on(&["config", "--get-all", "barber.protect"], Err(""))
        .on(&["rev-parse", "--is-shallow-repository"], Ok("false\n"))
        .on(
            &["worktree", "list", "--porcelain"],
            Ok("branch refs/heads/main\n"),
        )
        .on(
            &[
                "for-each-ref",
                "refs/heads",
                "--merged",
                "basesha0",
                "--format=%(refname)",
            ],
            Ok("\n"),
        )
        .on(&["remote"], Ok("origin\n"))
        .on(
            &["for-each-ref", "refs/heads", FORMAT],
            Ok("refs/heads/feat\u{0}feat111\u{0}\u{0}\u{0}\u{0}\u{0}1700000000\u{0}work\n"),
        )
        .on(&["merge-base", "basesha0", "feat111"], Ok("mb0\n"))
}

fn one_branch_options() -> Options<'static> {
    Options {
        base: None,
        protect: &[],
        jobs: 1,
        include_remote_only: false,
    }
}

#[test]
fn a_cached_verdict_is_used_instead_of_probing_again() {
    // The whole point of the cache, and the only test that proves it is
    // READ at all: no probe command is canned here, so if the scan falls
    // through to the prober FakeGit refuses the call and the branch stops
    // being a squash candidate.
    let mut git = up_to_the_fork_point();
    let mut cache = Cache::default();
    cache.insert(
        Key::new("basesha0", "mb0", "feat111"),
        Some(MergeKind::Squash),
    );

    let scan = scan(
        &mut git,
        &one_branch_options(),
        &mut NullReporter::new(),
        &mut cache,
    )
    .unwrap();

    assert!(scan.warnings.is_empty(), "unexpected: {:?}", scan.warnings);
    assert_eq!(
        scan.candidates
            .iter()
            .map(|c| (c.name.as_str(), c.kind))
            .collect::<Vec<_>>(),
        vec![("feat", MergeKind::Squash)],
    );
}

#[test]
fn a_verdict_cached_for_a_different_tip_is_never_reused() {
    // Same branch name, same fork point, different branch tip. Serving
    // the old verdict here would force-delete commits nothing verified,
    // so the scan must go back to the prober — which FakeGit refuses,
    // turning the reuse into a loud failure rather than a silent delete.
    let mut git = up_to_the_fork_point();
    let mut cache = Cache::default();
    cache.insert(
        Key::new("basesha0", "mb0", "OLD-TIP"),
        Some(MergeKind::Squash),
    );

    let scan = scan(
        &mut git,
        &one_branch_options(),
        &mut NullReporter::new(),
        &mut cache,
    )
    .unwrap();

    assert!(
        scan.candidates.is_empty(),
        "a stale verdict was reused: {:?}",
        scan.candidates
            .iter()
            .map(|c| (c.name.as_str(), c.kind))
            .collect::<Vec<_>>()
    );
    assert!(
        scan.warnings.iter().any(|w| w.contains("feat")),
        "the prober should have been consulted, got {:?}",
        scan.warnings
    );
}

#[test]
fn every_probe_is_pinned_to_the_shas_resolved_at_scan_start() {
    // The cache key records the base tip and the branch tip captured at
    // scan start. If any probe asked git for a REF instead, whatever the
    // ref pointed at seconds later would be judged, and the verdict
    // stored under the sha that was NOT measured:
    //
    //   * base side — a fetch lands mid-scan, then a later rewind serves
    //     the verdict as a hit;
    //   * branch side — a rebase in another terminal moves the branch,
    //     then `git rebase --abort` puts it back.
    //
    // Either way compare-then-delete cannot catch it: by deletion time
    // the tip does equal the sha, so the branch is force-deleted with
    // work nothing ever verified. Pinning every command to a sha closes
    // both, and removes the intra-run inconsistency the parallel phases
    // widened.
    //
    // FakeGit rejects any argv it was not given, so canning ONLY the sha
    // form is what pins this.
    const SHA: &str = "basesha0";
    const BRANCH: &str = "feat111";
    fn log_args(range: &str) -> Vec<&str> {
        let mut v = vec!["log", "-p", "--no-merges"];
        v.extend_from_slice(&DIFF_FLAGS);
        v.push(range);
        v
    }
    fn diff_tree_args<'a>(mb: &'a str, branch_ref: &'a str) -> Vec<&'a str> {
        let mut v = vec!["diff-tree", "-p", "-r"];
        v.extend_from_slice(&DIFF_FLAGS);
        v.extend([mb, branch_ref]);
        v
    }

    let mut git = FakeGit::default()
        .on(
            &["symbolic-ref", "--quiet", "refs/remotes/origin/HEAD"],
            Ok("refs/remotes/origin/main\n"),
        )
        .on(
            &[
                "rev-parse",
                "--verify",
                "--quiet",
                "refs/remotes/origin/main^{commit}",
            ],
            Ok("basesha0\n"),
        )
        .on(
            &["symbolic-ref", "--quiet", "--short", "HEAD"],
            Ok("main\n"),
        )
        .on(&["config", "--get-all", "barber.protect"], Err(""))
        .on(&["rev-parse", "--is-shallow-repository"], Ok("false\n"))
        .on(
            &["worktree", "list", "--porcelain"],
            Ok("branch refs/heads/main\n"),
        )
        // Ancestry, fork point and upstream walk: all keyed to the sha.
        .on(
            &[
                "for-each-ref",
                "refs/heads",
                "--merged",
                SHA,
                "--format=%(refname)",
            ],
            Ok("\n"),
        )
        .on(&["remote"], Ok("origin\n"))
        .on(
            &["for-each-ref", "refs/heads", FORMAT],
            Ok("refs/heads/feat\u{0}feat111\u{0}\u{0}\u{0}\u{0}\u{0}1700000000\u{0}work\n"),
        )
        .on(&["merge-base", SHA, BRANCH], Ok("mb0\n"))
        .on(&log_args(&format!("mb0..{SHA}")), Ok("UPLOG"))
        .on_input(&["patch-id", "--stable"], "UPLOG", Ok("shared1 c1\n"))
        .on(&diff_tree_args("mb0", BRANCH), Ok("DIFF"))
        .on_input(&["patch-id", "--stable"], "DIFF", Ok("shared1 000\n"));

    let scan = scan(
        &mut git,
        &Options {
            base: None,
            protect: &[],
            jobs: 1,
            include_remote_only: false,
        },
        &mut NullReporter::new(),
        &mut Cache::default(),
    )
    .unwrap();
    assert_eq!(scan.base.sha, SHA);
    assert_eq!(
        scan.candidates
            .iter()
            .map(|c| (c.name.as_str(), c.kind))
            .collect::<Vec<_>>(),
        vec![("feat", MergeKind::Squash)]
    );
}

#[test]
fn a_shallow_repository_still_counts_every_branch_it_examined() {
    // Shallow clones disable the patch-id probes entirely, so nothing
    // reaches phase 3. The counter must not stop short of the total and
    // leave the scan looking aborted.
    let mut git = FakeGit::default()
        .on(
            &["symbolic-ref", "--quiet", "refs/remotes/origin/HEAD"],
            Ok("refs/remotes/origin/main\n"),
        )
        .on(
            &[
                "rev-parse",
                "--verify",
                "--quiet",
                "refs/remotes/origin/main^{commit}",
            ],
            Ok("base000\n"),
        )
        .on(
            &["symbolic-ref", "--quiet", "--short", "HEAD"],
            Ok("main\n"),
        )
        .on(&["config", "--get-all", "barber.protect"], Err(""))
        .on(&["rev-parse", "--is-shallow-repository"], Ok("true\n"))
        .on(
            &["worktree", "list", "--porcelain"],
            Ok("branch refs/heads/main\n"),
        )
        .on(
            &[
                "for-each-ref",
                "refs/heads",
                "--merged",
                "base000",
                "--format=%(refname)",
            ],
            Ok("refs/heads/feat-a\n"),
        )
        .on(&["remote"], Ok("origin\n"))
        .on(
            &["for-each-ref", "refs/heads", FORMAT],
            Ok(
                "refs/heads/feat-a\u{0}aaa111\u{0}\u{0}\u{0}\u{0}\u{0}1700000000\u{0}a\n\
                refs/heads/feat-b\u{0}bbb222\u{0}\u{0}\u{0}\u{0}\u{0}1700000100\u{0}b\n",
            ),
        );

    let mut reporter = RecordingReporter::default();
    let scan = scan(
        &mut git,
        &Options {
            base: None,
            protect: &[],
            jobs: 1,
            include_remote_only: false,
        },
        &mut reporter,
        &mut Cache::default(),
    )
    .unwrap();

    assert!(
        scan.warnings.iter().any(|w| w.contains("shallow")),
        "expected the shallow warning, got {:?}",
        scan.warnings
    );
    let ticks = reporter.ticks.clone();
    assert_eq!(
        ticks.last(),
        Some(&(2, 2)),
        "the counter must reach the total, got {ticks:?}"
    );
}

#[test]
fn scan_reports_progress_for_every_branch_and_clears_the_line() {
    // Silence during a long scan reads as a hang: every branch examined
    // has to move the counter, and the line must be wiped afterwards so
    // it cannot collide with the listing.
    let mut git = two_merged_branches();
    let mut reporter = RecordingReporter::default();
    let scan = scan(
        &mut git,
        &Options {
            base: None,
            protect: &[],
            jobs: 1,
            include_remote_only: false,
        },
        &mut reporter,
        &mut Cache::default(),
    )
    .unwrap();

    assert_eq!(scan.candidates.len(), 2);
    let ticks = reporter.ticks.clone();
    assert_eq!(ticks.len(), 2, "one tick per branch, got {ticks:?}");
    assert!(
        ticks.iter().all(|&(_, total)| total == 2),
        "total must be the branch count, got {ticks:?}"
    );
    assert!(reporter.finished, "finish not called");
}

#[test]
fn base_flag_is_verified_and_normalized() {
    let mut git = FakeGit::default()
        .on(
            &["rev-parse", "--verify", "--quiet", "topic^{commit}"],
            Ok("abc\n"),
        )
        .on(
            &["rev-parse", "--symbolic-full-name", "topic"],
            Ok("refs/heads/topic\n"),
        );
    let base = resolve_base(&mut git, Some("topic")).unwrap();
    assert_eq!(base.name, "topic");
    assert_eq!(base.refname.as_deref(), Some("refs/heads/topic"));
    assert_eq!(base.rev(), "refs/heads/topic");

    // A raw SHA base has no refname but still works.
    let mut git = FakeGit::default()
        .on(
            &["rev-parse", "--verify", "--quiet", "abc123^{commit}"],
            Ok("abc123\n"),
        )
        .on(&["rev-parse", "--symbolic-full-name", "abc123"], Ok("\n"));
    let base = resolve_base(&mut git, Some("abc123")).unwrap();
    assert_eq!(base.refname, None);

    let mut git = FakeGit::default().on(
        &["rev-parse", "--verify", "--quiet", "nope^{commit}"],
        Err(""),
    );
    assert!(resolve_base(&mut git, Some("nope")).is_err());
}

#[test]
fn base_prefers_origin_head_symref() {
    let mut git = FakeGit::default()
        .on(
            &["symbolic-ref", "--quiet", "refs/remotes/origin/HEAD"],
            Ok("refs/remotes/origin/trunk\n"),
        )
        .on(
            &[
                "rev-parse",
                "--verify",
                "--quiet",
                "refs/remotes/origin/trunk^{commit}",
            ],
            Ok("abc\n"),
        );
    let base = resolve_base(&mut git, None).unwrap();
    assert_eq!(base.name, "origin/trunk");
    assert_eq!(base.refname.as_deref(), Some("refs/remotes/origin/trunk"));
}

#[test]
fn dangling_origin_head_falls_through_to_probes() {
    // Classic post-rename state: origin/HEAD still points at a deleted
    // origin/master. Must not error; must fall through to origin/main.
    let mut git = FakeGit::default()
        .on(
            &["symbolic-ref", "--quiet", "refs/remotes/origin/HEAD"],
            Ok("refs/remotes/origin/master\n"),
        )
        .on(
            &[
                "rev-parse",
                "--verify",
                "--quiet",
                "refs/remotes/origin/master^{commit}",
            ],
            Err(""),
        )
        .on(
            &[
                "rev-parse",
                "--verify",
                "--quiet",
                "refs/remotes/origin/main^{commit}",
            ],
            Ok("abc\n"),
        );
    assert_eq!(resolve_base(&mut git, None).unwrap().name, "origin/main");
}

#[test]
fn base_resolution_failure_is_actionable() {
    let mut git = FakeGit::default().on(
        &["symbolic-ref", "--quiet", "refs/remotes/origin/HEAD"],
        Err(""),
    );
    for full in [
        "refs/remotes/origin/main",
        "refs/remotes/origin/master",
        "refs/heads/main",
        "refs/heads/master",
    ] {
        git = git.on(
            &[
                "rev-parse",
                "--verify",
                "--quiet",
                &format!("{full}^{{commit}}"),
            ],
            Err(""),
        );
    }
    let err = resolve_base(&mut git, None).unwrap_err().message;
    assert!(err.contains("--base"), "unhelpful error: {err}");
}

#[test]
fn glob_matching() {
    assert!(glob_match("main", "main"));
    assert!(!glob_match("main", "main2"));
    assert!(glob_match("release/*", "release/1.0"));
    assert!(!glob_match("release/*", "released"));
    assert!(glob_match("*-wip", "feature-wip"));
    assert!(!glob_match("*-wip", "-wi"));
    assert!(glob_match("*", "anything"));
    // multiple wildcards
    assert!(glob_match("*-keep-*", "wip-keep-alice"));
    assert!(!glob_match("*-keep-*", "wip-kept-alice"));
    assert!(glob_match("a*b*c", "aXbYc"));
    assert!(glob_match("a*b*c", "abc"));
    assert!(!glob_match("a*b*c", "acb"));
    assert!(glob_match("feature/*/keep", "feature/x/keep"));
    assert!(!glob_match("a*a", "a")); // parts must not overlap
}

#[test]
fn parse_ref_line() {
    let b = RawBranch::parse(
        "refs/heads/feat/x\0abc123\0refs/remotes/origin/feat/x\0origin/feat/x\0[gone]\0origin\x001700000000\0Add x\0extra",
    )
    .unwrap();
    assert_eq!(b.name, "feat/x");
    assert_eq!(b.refname, "refs/heads/feat/x");
    assert_eq!(b.sha, "abc123");
    assert_eq!(b.upstream.as_deref(), Some("origin/feat/x"));
    assert_eq!(
        b.upstream_ref.as_deref(),
        Some("refs/remotes/origin/feat/x")
    );
    assert!(b.upstream_gone);
    assert_eq!(b.remote_name.as_deref(), Some("origin"));
    assert_eq!(b.last_commit_unix, 1_700_000_000);
    assert_eq!(b.subject, "Add x");

    let b = RawBranch::parse("refs/heads/local\0abc\0\0\0\0\x001700000000\0msg").unwrap();
    assert!(b.upstream.is_none());
    assert!(b.upstream_ref.is_none());
    assert!(!b.upstream_gone);
}

fn line(name: &str, sha: &str, upstream_short: &str, track: &str) -> String {
    let upstream_full = if upstream_short.is_empty() {
        String::new()
    } else {
        format!("refs/remotes/{upstream_short}")
    };
    format!(
        "refs/heads/{name}\0{sha}\0{upstream_full}\0{upstream_short}\0{track}\0origin\x001700000000\0subject"
    )
}

/// Can the full scan classify Merged/Squash/Rebase/Gone and apply every
/// exclusion? All git calls are canned.
#[test]
fn scan_classifies_and_excludes() {
    let enumeration = [
        line("main", "s0", "origin/main", ""),
        line("feature-merged", "s1", "", ""),
        line("feature-squash", "s2", "", ""),
        line("feature-rebase", "s3", "", ""),
        line("feature-gone", "s4", "origin/feature-gone", "[gone]"),
        line("feature-active", "s5", "origin/feature-active", ""),
        line("feature-wt", "s6", "", ""),
        line("release/1.0", "s7", "", ""),
    ]
    .join("\n");

    // Argv builders mirroring the production DIFF_FLAGS plumbing.
    fn log_args(range: &str) -> Vec<&str> {
        let mut v = vec!["log", "-p", "--no-merges"];
        v.extend_from_slice(&DIFF_FLAGS);
        v.push(range);
        v
    }
    fn diff_tree_args<'a>(mb: &'a str, branch_ref: &'a str) -> Vec<&'a str> {
        let mut v = vec!["diff-tree", "-p", "-r"];
        v.extend_from_slice(&DIFF_FLAGS);
        v.extend([mb, branch_ref]);
        v
    }
    // Scan queries are pinned to the resolved base SHA, not the ref —
    // see `every_probe_is_pinned_to_the_shas_resolved_at_scan_start`.
    const BASE_REV: &str = "abc";

    // Every probe argument is a SHA, never a ref — both the base and the
    // branch. That is what the cache keys name.
    let probe = |git: FakeGit,
                 branch: &str,
                 branch_sha: &str,
                 mb: &str,
                 combined_id: &str,
                 branch_ids: &str,
                 branch_commits: &str| {
        git.on(
            &["merge-base", BASE_REV, branch_sha],
            Ok(&format!("{mb}\n")),
        )
        .on(
            &log_args(&format!("{mb}..{BASE_REV}")),
            Ok(&format!("UPLOG-{mb}")),
        )
        .on_input(
            &["patch-id", "--stable"],
            &format!("UPLOG-{mb}"),
            Ok("up1 c1\nup2 c2\n"),
        )
        .on(
            &diff_tree_args(mb, branch_sha),
            Ok(&format!("DIFF-{branch}")),
        )
        .on_input(
            &["patch-id", "--stable"],
            &format!("DIFF-{branch}"),
            Ok(&format!("{combined_id} 000\n")),
        )
        .on(
            &[
                "rev-list",
                "--min-parents=2",
                "--count",
                &format!("{mb}..{branch_sha}"),
            ],
            Ok("0\n"),
        )
        .on(
            &log_args(&format!("{mb}..{branch_sha}")),
            Ok(&format!("BLOG-{branch}")),
        )
        .on_input(
            &["patch-id", "--stable"],
            &format!("BLOG-{branch}"),
            Ok(branch_ids),
        )
        .on(
            &[
                "rev-list",
                "--no-merges",
                "--count",
                &format!("{mb}..{branch_sha}"),
            ],
            Ok(branch_commits),
        )
    };

    let mut git = FakeGit::default()
        .on(
            &["symbolic-ref", "--quiet", "refs/remotes/origin/HEAD"],
            Ok("refs/remotes/origin/main\n"),
        )
        .on(
            &[
                "rev-parse",
                "--verify",
                "--quiet",
                "refs/remotes/origin/main^{commit}",
            ],
            Ok("abc\n"),
        )
        .on(
            &["symbolic-ref", "--quiet", "--short", "HEAD"],
            Ok("feature-active\n"),
        )
        .on(&["config", "--get-all", "barber.protect"], Err(""))
        .on(&["rev-parse", "--is-shallow-repository"], Ok("false\n"))
        .on(
            &["worktree", "list", "--porcelain"],
            Ok("worktree /w\nHEAD s6\nbranch refs/heads/feature-wt\n"),
        )
        .on(&["remote"], Ok("origin\n"))
        .on(
            &[
                "for-each-ref",
                "refs/heads",
                "--merged",
                BASE_REV,
                "--format=%(refname)",
            ],
            // feature-wt is merged but held by a worktree → must be excluded
            Ok("refs/heads/main\nrefs/heads/feature-merged\nrefs/heads/feature-wt\n"),
        )
        .on(
            &["for-each-ref", "refs/heads", FORMAT],
            Ok(&enumeration),
        );
    // squash: combined diff id matches upstream; rebase check not reached
    git = probe(
        git,
        "feature-squash",
        "s2",
        "mb2",
        "up1",
        "irrelevant 0\n",
        "9",
    );
    // rebase: combined misses, but each commit's id is upstream and the
    // id count equals the commit count (no empty commits hiding)
    git = probe(
        git,
        "feature-rebase",
        "s3",
        "mb3",
        "zzz",
        "up1 a\nup2 b\n",
        "2\n",
    );
    // gone: nothing matches
    git = probe(git, "feature-gone", "s4", "mb4", "zzz", "own1 a\n", "1\n");

    let scan = scan(
        &mut git,
        &Options {
            base: None,
            protect: &["release/*".to_string()],
            jobs: 1,
            include_remote_only: false,
        },
        &mut NullReporter::new(),
        &mut Cache::default(),
    )
    .unwrap();
    assert_eq!(scan.base.name, "origin/main");
    let kinds: Vec<(&str, MergeKind)> = scan
        .candidates
        .iter()
        .map(|c| (c.name.as_str(), c.kind))
        .collect();
    // Excluded: main (base twin), feature-active (checked out, never
    // probed), feature-wt (worktree), release/1.0 (protected glob).
    assert_eq!(
        kinds,
        vec![
            ("feature-merged", MergeKind::Merged),
            ("feature-squash", MergeKind::Squash),
            ("feature-rebase", MergeKind::Rebase),
            ("feature-gone", MergeKind::Gone),
        ]
    );
    assert!(
        scan.candidates
            .iter()
            .take(3)
            .all(|c| c.selected_by_default())
    );
    assert!(!scan.candidates[0].needs_force());
    assert!(scan.candidates[1].needs_force());
    assert!(scan.candidates[2].needs_force());
    assert!(!scan.candidates[3].selected_by_default());
}

#[test]
fn probe_failure_is_a_warning_not_an_abort() {
    let enumeration = line("feature-odd", "s1", "", "");
    let mut git = FakeGit::default()
        .on(
            &["symbolic-ref", "--quiet", "refs/remotes/origin/HEAD"],
            Ok("refs/remotes/origin/main\n"),
        )
        .on(
            &[
                "rev-parse",
                "--verify",
                "--quiet",
                "refs/remotes/origin/main^{commit}",
            ],
            Ok("abc\n"),
        )
        .on(
            &["symbolic-ref", "--quiet", "--short", "HEAD"],
            Ok("main\n"),
        )
        .on(&["config", "--get-all", "barber.protect"], Err(""))
        .on(&["rev-parse", "--is-shallow-repository"], Ok("false\n"))
        .on(&["worktree", "list", "--porcelain"], Ok(""))
        .on(&["remote"], Ok("origin\n"))
        // Pinned to the resolved base SHA, not the ref — see
        // `every_probe_is_pinned_to_the_base_sha_resolved_at_scan_start`.
        .on(
            &[
                "for-each-ref",
                "refs/heads",
                "--merged",
                "abc",
                "--format=%(refname)",
            ],
            Ok(""),
        )
        .on(
            &["for-each-ref", "refs/heads", FORMAT],
            Ok(&enumeration),
        )
        .on(&["merge-base", "abc", "refs/heads/feature-odd"], Ok("mb\n"))
        // upstream log blows up (e.g. corrupt object) — scan must survive
        .on(
            &{
                let mut v = vec!["log", "-p", "--no-merges"];
                v.extend_from_slice(&DIFF_FLAGS);
                v.push("mb..abc");
                v
            },
            Err("boom"),
        );

    let scan = scan(
        &mut git,
        &Options {
            base: None,
            protect: &[],
            jobs: 1,
            include_remote_only: false,
        },
        &mut NullReporter::new(),
        &mut Cache::default(),
    )
    .unwrap();
    assert!(scan.candidates.is_empty());
    assert!(
        scan.warnings.iter().any(|w| w.contains("feature-odd")),
        "expected a probe warning, got {:?}",
        scan.warnings
    );
}

#[test]
fn detached_head_excludes_nothing() {
    let mut git = FakeGit::default().on(&["symbolic-ref", "--quiet", "--short", "HEAD"], Err(""));
    assert_eq!(current_branch(&mut git).unwrap(), None);
}


#[test]
fn what_a_probe_found_is_remembered_under_its_three_shas() {
    let diff_tree: Vec<&str> = ["diff-tree", "-p", "-r"]
        .into_iter()
        .chain(DIFF_FLAGS)
        .chain(["mb0", "feat111"])
        .collect();
    let log: Vec<&str> = ["log", "-p", "--no-merges"]
        .into_iter()
        .chain(DIFF_FLAGS)
        .chain(["mb0..basesha0"])
        .collect();
    let mut git = up_to_the_fork_point()
        .on(&log, Ok("UPLOG"))
        .on_input(&["patch-id", "--stable"], "UPLOG", Ok("id1 c1\n"))
        .on(&diff_tree, Ok("DIFF"))
        .on_input(&["patch-id", "--stable"], "DIFF", Ok("id1 000\n"));
    let mut cache = Cache::default();
    let mut reporter = RecordingReporter::default();
    let found = scan(&mut git, &one_branch_options(), &mut reporter, &mut cache).unwrap();
    assert_eq!(found.candidates.len(), 1);
    assert_eq!(
        cache.stored(),
        vec![("basesha0:mb0:feat111".to_string(), Some(MergeKind::Squash))]
    );
    assert_eq!(reporter.ticks, vec![(1, 1)]);
}

/// A canned git that notes what it is asked.
struct Noting {
    git: FakeGit,
    asked: Vec<Vec<String>>,
}

impl Noting {
    fn note(&mut self, args: &[&str]) {
        self.asked.push(args.iter().map(|a| a.to_string()).collect());
    }

    fn patches_asked(&self) -> Vec<&str> {
        self.asked
            .iter()
            .filter(|args| args[0] == "diff-tree")
            .map(|args| args[args.len() - 1].as_str())
            .collect()
    }
}

impl Git for Noting {
    fn run(&mut self, args: &[&str]) -> Result<String, Error> {
        self.note(args);
        self.git.run(args)
    }
    fn try_run(&mut self, args: &[&str]) -> Result<(bool, String), Error> {
        self.note(args);
        self.git.try_run(args)
    }
    fn run_with_input(&mut self, args: &[&str], input: &str) -> Result<String, Error> {
        self.note(args);
        self.git.run_with_input(args, input)
    }
}

fn flagged<'a>(first: &[&'a str], last: &[&'a str]) -> Vec<&'a str> {
    let mut v = first.to_vec();
    v.extend_from_slice(&DIFF_FLAGS);
    v.extend_from_slice(last);
    v
}

/// Four branches: one squashed, one whose probe fails, one whose walk fails,
/// and one without any common history.
fn four_unmerged_branches() -> FakeGit {
    let listing = [
        line("feat", "feat111", "", ""),
        line("odd", "odd222", "", ""),
        line("broken", "broken333", "", ""),
        line("stray", "stray444", "", ""),
    ]
    .join("\n");
    up_to_the_fork_point()
        .on(&["for-each-ref", "refs/heads", FORMAT], Ok(&listing))
        .on(&["merge-base", "basesha0", "odd222"], Ok("mb0\n"))
        .on(&["merge-base", "basesha0", "broken333"], Ok("mb1\n"))
        .on(&["merge-base", "basesha0", "stray444"], Err(""))
        .on(
            &flagged(&["log", "-p", "--no-merges"], &["mb0..basesha0"]),
            Ok("UPLOG"),
        )
        .on(
            &flagged(&["log", "-p", "--no-merges"], &["mb1..basesha0"]),
            Err("bad object"),
        )
        .on_input(&["patch-id", "--stable"], "UPLOG", Ok("id1 c1\n"))
        .on(
            &flagged(&["diff-tree", "-p", "-r"], &["mb0", "feat111"]),
            Ok("DIFF"),
        )
        .on_input(&["patch-id", "--stable"], "DIFF", Ok("id1 000\n"))
        .on(
            &flagged(&["diff-tree", "-p", "-r"], &["mb0", "odd222"]),
            Err("boom"),
        )
}

#[test]
fn a_second_scan_finds_the_same_and_probes_only_what_failed() {
    let mut cache = Cache::default();
    let mut git = Noting {
        git: four_unmerged_branches(),
        asked: Vec::new(),
    };
    let mut reporter = NullReporter::new();
    let first = scan(&mut git, &one_branch_options(), &mut reporter, &mut cache).unwrap();
    assert_eq!(git.patches_asked(), vec!["feat111", "odd222"]);
    let kinds = |s: &git_barber::scan::Scan| {
        s.candidates
            .iter()
            .map(|c| (c.name.clone(), c.sha.clone(), c.kind))
            .collect::<Vec<_>>()
    };
    assert_eq!(
        kinds(&first),
        vec![("feat".to_string(), "feat111".to_string(), MergeKind::Squash)]
    );
    assert_eq!(first.warnings.len(), 2);
    assert!(first.warnings[0].starts_with("broken: "));
    assert!(first.warnings[1].starts_with("odd: "));

    // Once with the cache as it was left, once with what was written back.
    let mut reloaded = Cache::from_stored(git_barber::cache::VERSION, &cache.stored());
    for again in [&mut cache, &mut reloaded] {
        git.asked.clear();
        let second = scan(&mut git, &one_branch_options(), &mut reporter, again).unwrap();
        assert_eq!(kinds(&second), kinds(&first));
        assert_eq!(second.base.sha, first.base.sha);
        assert_eq!(second.warnings, first.warnings);
        assert_eq!(git.patches_asked(), vec!["odd222"]);
    }
}

/// Asks back to front, and gives the answers in the order of the questions.
fn back_to_front<T, R>(items: &[T], mut ask: impl FnMut(&T) -> R) -> Vec<R> {
    let mut answers: Vec<R> = items.iter().rev().map(|item| ask(item)).collect();
    answers.reverse();
    answers
}

#[test]
fn the_order_of_asking_does_not_change_what_a_scan_finds() {
    let opts = one_branch_options();
    let mut plain = Cache::default();
    let expected = scan(
        &mut four_unmerged_branches(),
        &opts,
        &mut NullReporter::new(),
        &mut plain,
    )
    .unwrap();

    let mut git = four_unmerged_branches();
    let mut cache = Cache::default();
    let c = Forking::begin(survey(&mut git, &opts).unwrap());
    assert_eq!((c.branches().len(), c.total(), c.settled()), (4, 4, 0));
    let forks = back_to_front(c.branches(), |b| merge_base(&mut git, c.base(), &b.sha));
    let c = c.answered(forks, &mut cache);
    assert_eq!(c.settled(), 0);
    assert_eq!(c.forks(), &vec!["mb0".to_string(), "mb1".to_string()]);
    let ids = back_to_front(c.forks(), |f| upstream_patch_ids(&mut git, c.base(), f));
    let c = c.answered(ids);
    let outcomes = back_to_front(c.branches(), |b| probe_pending(&mut git, b, c.walks()));
    let found = c.answered(outcomes, &mut cache);

    assert_eq!(found.warnings, expected.warnings);
    assert_eq!(found.candidates.len(), 1);
    assert_eq!(found.candidates[0].name, expected.candidates[0].name);
    assert_eq!(found.candidates[0].kind, MergeKind::Squash);
    assert_eq!(cache.stored(), plain.stored());
}

#[test]
fn branches_without_a_question_are_settled_before_each_batch() {
    let opts = one_branch_options();
    let c = Forking::begin(survey(&mut two_merged_branches(), &opts).unwrap());
    assert_eq!((c.total(), c.settled(), c.branches().len()), (2, 2, 0));

    let mut git = four_unmerged_branches();
    let mut cache = Cache::default();
    cache.insert(Key::new("basesha0", "mb0", "feat111"), None);
    let c = Forking::begin(survey(&mut git, &opts).unwrap());
    let forks = back_to_front(c.branches(), |b| merge_base(&mut git, c.base(), &b.sha));
    let c = c.answered(forks, &mut cache);
    assert_eq!(c.settled(), 1);
}
