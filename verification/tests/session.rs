use git_barber::cli::{Cli, Mode};
use git_barber::git::fake::FakeGit;
use git_barber::ops::{DeletionResult, LocalOutcome, RemoteOutcome};
use git_barber::scan::{Base, Candidate, CandidateScope, MergeKind, Scan};
use git_barber::session::{
    exit_code, next_step, open_repository, plan_all, reported, scan_options, Step,
};

fn flags() -> Cli {
    Cli {
        base: Some("trunk".into()),
        list: false,
        json: false,
        yes: true,
        remote: true,
        include_gone: false,
        protect: vec!["release/*".into()],
        fetch: true,
        dir: None,
        no_cache: false,
        completions: None,
        man: false,
    }
}

fn candidate(name: &str, kind: MergeKind, scope: CandidateScope) -> Candidate {
    Candidate {
        name: name.into(),
        refname: format!("refs/heads/{name}"),
        sha: "abc".into(),
        kind,
        scope,
        upstream: None,
        remote_name: None,
        upstream_gone: kind == MergeKind::Gone,
        last_commit_unix: 0,
        subject: String::new(),
        upstream_ref: None,
    }
}

fn scan_of(candidates: Vec<Candidate>) -> Scan {
    Scan {
        base: Base {
            name: "main".into(),
            refname: None,
            sha: "base000".into(),
        },
        candidates,
        warnings: vec![],
    }
}

#[test]
fn outside_a_repository_the_run_ends_early() {
    let mut git = FakeGit::default().on(&["rev-parse", "--git-dir"], Err("fatal: not a repo"));
    let err = open_repository(&mut git, &flags()).err().unwrap();
    assert_eq!(
        err.chain(),
        "`git rev-parse --git-dir` failed: fatal: not a repo"
    );
}

#[test]
fn a_failed_fetch_is_a_warning() {
    let mut git = FakeGit::default()
        .on(&["rev-parse", "--git-dir"], Ok(".git\n"))
        .on(&["fetch", "--prune", "--quiet"], Err("offline"))
        .on(&["rev-parse", "--absolute-git-dir"], Ok("/repo/.git\n"));
    let opened = open_repository(&mut git, &flags()).unwrap();
    assert_eq!(
        opened.fetch_warning.as_deref(),
        Some(
            "fetch failed, scanning with possibly stale remote refs: `git fetch --prune --quiet` failed: offline"
        )
    );
    assert_eq!(opened.git_dir.as_deref(), Some("/repo/.git"));
}

#[test]
fn nothing_is_fetched_or_cached_unasked() {
    // Neither the fetch nor the directory of the cache is canned.
    let mut git = FakeGit::default().on(&["rev-parse", "--git-dir"], Ok(".git\n"));
    let cli = Cli {
        fetch: false,
        no_cache: true,
        ..flags()
    };
    let opened = open_repository(&mut git, &cli).unwrap();
    assert!(opened.fetch_warning.is_none());
    assert!(opened.git_dir.is_none());
    // A directory that cannot be asked for costs the cache, not the run.
    let cli = Cli {
        fetch: false,
        ..flags()
    };
    assert!(open_repository(&mut git, &cli).unwrap().git_dir.is_none());
}

#[test]
fn the_flags_say_what_is_scanned() {
    let cli = flags();
    let options = scan_options(&cli, 3);
    assert_eq!(options.base, Some("trunk"));
    assert_eq!(options.protect, &["release/*".to_string()]);
    assert_eq!(options.jobs, 3);
    assert!(options.include_remote_only);
}

#[test]
fn yes_takes_verified_local_candidates_and_gone_ones_with_consent() {
    let cs = vec![
        candidate("a", MergeKind::Merged, CandidateScope::Local),
        candidate("b", MergeKind::Squash, CandidateScope::Local),
        candidate("c", MergeKind::Gone, CandidateScope::Local),
        candidate("origin/d", MergeKind::Merged, CandidateScope::RemoteOnly),
    ];
    let names = |include_gone| -> Vec<String> {
        plan_all(&cs, include_gone, false)
            .into_iter()
            .map(|p| p.candidate.name)
            .collect()
    };
    assert_eq!(names(false), vec!["a", "b"]);
    assert_eq!(names(true), vec!["a", "b", "c"]);
    assert!(plan_all(&cs, true, true).iter().all(|p| p.delete_remote));
}

#[test]
fn a_scan_leads_to_one_step() {
    let gone_only = scan_of(vec![candidate("c", MergeKind::Gone, CandidateScope::Local)]);
    let some = scan_of(vec![candidate("a", MergeKind::Merged, CandidateScope::Local)]);
    let none = scan_of(vec![]);
    let plain = flags();
    let json = Cli {
        json: true,
        ..flags()
    };
    assert!(matches!(
        next_step(&json, Mode::List, &some),
        Step::List { json: true }
    ));
    assert!(matches!(
        next_step(&plain, Mode::Execute, &gone_only),
        Step::List { json: false }
    ));
    assert!(matches!(
        next_step(&json, Mode::Execute, &gone_only),
        Step::NothingDone
    ));
    match next_step(&plain, Mode::Execute, &some) {
        Step::Execute(plans) => {
            assert_eq!(plans.len(), 1);
            assert!(plans[0].delete_remote);
        }
        _ => panic!("expected a deletion"),
    }
    assert!(matches!(next_step(&plain, Mode::Tui, &some), Step::Tui));
    assert!(matches!(
        next_step(&plain, Mode::Tui, &none),
        Step::List { json: false }
    ));
}

#[test]
fn one_failure_is_a_failed_run() {
    let result = |local, remote| DeletionResult {
        name: "x".into(),
        sha: "abc".into(),
        kind: MergeKind::Merged,
        local,
        remote,
        undo: vec![],
    };
    let fine = || result(LocalOutcome::Deleted, RemoteOutcome::Skipped);
    assert_eq!(exit_code(&[]), 0);
    assert_eq!(exit_code(&[fine(), fine()]), 0);
    let local = result(LocalOutcome::Failed("no".into()), RemoteOutcome::Skipped);
    assert_eq!(exit_code(&[fine(), local]), 1);
    let remote = result(LocalOutcome::Deleted, RemoteOutcome::Failed("no".into()));
    assert_eq!(exit_code(&[remote, fine()]), 1);
}

#[test]
fn a_failed_fetch_is_warned_of_behind_the_scans_own_warnings() {
    let mut git = FakeGit::default()
        .on(&["rev-parse", "--git-dir"], Ok(".git\n"))
        .on(&["fetch", "--prune", "--quiet"], Err("no route to host"))
        .on(&["rev-parse", "--absolute-git-dir"], Ok("/r/.git\n"));
    let opened = open_repository(&mut git, &flags()).unwrap();
    let mut scan = scan_of(vec![candidate(
        "a",
        MergeKind::Merged,
        CandidateScope::Local,
    )]);
    scan.warnings = vec!["odd: merge probe failed: boom".into()];
    let shown = reported(scan, &opened);
    assert_eq!(
        shown.warnings,
        vec![
            "odd: merge probe failed: boom".to_string(),
            "fetch failed, scanning with possibly stale remote refs: \
             `git fetch --prune --quiet` failed: no route to host"
                .to_string(),
        ]
    );
    assert_eq!(shown.candidates.len(), 1);
    assert_eq!(shown.base.name, "main");
    match next_step(&flags(), Mode::Execute, &shown) {
        Step::Execute(plans) => assert_eq!(plans.len(), 1),
        _ => panic!("the plan does not depend on the fetch"),
    }

    let mut quiet = flags();
    quiet.fetch = false;
    let opened = open_repository(&mut git, &quiet).unwrap();
    assert!(reported(scan_of(vec![]), &opened).warnings.is_empty());
}
