use git_barber::ops::{DeletionResult, LocalOutcome, RemoteOutcome};
use git_barber::output::{
    age, execute_report, human_execute, human_list, kind_label, list_report, local_label,
};
use git_barber::scan::{Base, Candidate, CandidateScope, MergeKind, Scan};

#[test]
fn ages() {
    assert_eq!(age(1000, 1000), "1m");
    assert_eq!(age(7200, 0), "2h");
    assert_eq!(age(86_400 * 3, 0), "3d");
    assert_eq!(age(86_400 * 10, 0), "1w");
    assert_eq!(age(86_400 * 45, 0), "1mo");
    assert_eq!(age(86_400 * 800, 0), "2y");
}

fn base() -> Base {
    Base {
        name: "origin/main".into(),
        refname: Some("refs/remotes/origin/main".into()),
        sha: "base000".into(),
    }
}

fn candidate(name: &str, kind: MergeKind) -> Candidate {
    Candidate {
        name: name.into(),
        refname: format!("refs/heads/{name}"),
        sha: "abc123".into(),
        kind,
        scope: CandidateScope::Local,
        upstream: Some(format!("origin/{name}")),
        remote_name: Some("origin".into()),
        upstream_gone: kind == MergeKind::Gone,
        last_commit_unix: 0,
        subject: "subject".into(),
        upstream_ref: Some(format!("refs/remotes/origin/{name}")),
    }
}

#[test]
fn human_list_empty_and_full() {
    let scan = Scan {
        base: base(),
        candidates: vec![],
        warnings: vec![],
    };
    assert!(human_list(&scan, 0).contains("Nothing to trim"));

    let scan = Scan {
        base: base(),
        candidates: vec![
            candidate("a", MergeKind::Merged),
            candidate("b", MergeKind::Gone),
        ],
        warnings: vec!["shallow".into()],
    };
    let text = human_list(&scan, 86_400);
    assert!(text.contains("warning: shallow"));
    assert!(text.contains("merged"));
    assert!(text.contains("(gone)"));
    assert!(text.contains("2 candidate(s), 1 selected"));
}

#[test]
fn json_shapes() {
    let scan = Scan {
        base: base(),
        candidates: vec![candidate("a", MergeKind::Rebase)],
        warnings: vec![],
    };
    let value = list_report(&scan);
    assert_eq!(value.base, "origin/main");
    assert_eq!(kind_label(value.branches[0].candidate.kind), "rebase");
    assert_eq!(value.branches[0].selected_by_default, true);

    // --yes --json with nothing deleted still reports the candidates,
    // under the same `branches` key as the listing.
    let value = execute_report(&scan, &[]);
    assert_eq!(value.branches[0].candidate.name, "a");
    assert_eq!(value.results.len(), 0);
}

#[test]
fn execute_report_shows_remote_target_and_undo() {
    let results = vec![DeletionResult {
        name: "local-copy".into(),
        sha: "abc123".into(),
        kind: MergeKind::Merged,
        local: LocalOutcome::Deleted,
        remote: RemoteOutcome::Deleted {
            target: "origin/shared".into(),
            sha: "def456".into(),
        },
        undo: vec![
            "git branch local-copy abc123".into(),
            "git push origin def456:refs/heads/shared".into(),
        ],
    }];
    let text = human_execute("origin/main", &["late fetch".to_string()], &results);
    assert!(text.contains("warning: late fetch"), "{text}");
    assert!(text.contains("deleted origin/shared on remote"), "{text}");
    assert!(text.contains("undo:"));
    assert!(text.contains("git reflog"));
}

#[test]
fn the_listing_is_exactly_this() {
    let mut long = candidate("feature/ü", MergeKind::Squash);
    long.upstream = None;
    let scan = Scan {
        base: base(),
        candidates: vec![long, candidate("b", MergeKind::Gone)],
        warnings: vec!["one".into(), "two".into()],
    };
    // Names are padded to the longest one, counted in bytes.
    assert_eq!(
        human_list(&scan, 86_400 * 3),
        "warning: one\nwarning: two\nbase: origin/main\n  \
         feature/ü   squash    3d ago\n  \
         b           gone      3d ago  ↑ origin/b (gone)\n\n\
         2 candidate(s), 1 selected by default. Run `git barber` for the TUI or `git barber --yes` to delete.\n\
         tip: gone branches are never deleted without explicit consent (--include-gone or a manual TUI check).\n"
    );
    let empty = Scan {
        base: base(),
        candidates: vec![],
        warnings: vec![],
    };
    assert_eq!(human_list(&empty, 0), "Nothing to trim (base: origin/main).\n");
}

fn result(kind: MergeKind, local: LocalOutcome) -> DeletionResult {
    DeletionResult {
        name: "x".into(),
        sha: "abc".into(),
        kind,
        local,
        remote: RemoteOutcome::Skipped,
        undo: vec![],
    }
}

#[test]
fn every_forced_deletion_is_labeled_with_its_justification() {
    let forced = |kind| local_label(&result(kind, LocalOutcome::ForceDeleted));
    assert_eq!(
        forced(MergeKind::Merged),
        "force-deleted (verified merged into base)"
    );
    assert_eq!(forced(MergeKind::Squash), "force-deleted (patch-id verified)");
    assert_eq!(forced(MergeKind::Rebase), "force-deleted (patch-id verified)");
    assert_eq!(forced(MergeKind::Gone), "force-deleted (upstream was gone)");
    assert_eq!(
        local_label(&result(MergeKind::Gone, LocalOutcome::Failed("no".into()))),
        "FAILED: no"
    );
    assert_eq!(
        local_label(&result(MergeKind::Merged, LocalOutcome::Skipped)),
        "no local branch"
    );
}

#[test]
fn the_report_is_exactly_this() {
    let mut failed = result(MergeKind::Merged, LocalOutcome::Deleted);
    failed.remote = RemoteOutcome::Failed("rejected".into());
    failed.undo = vec!["git branch x abc".into()];
    assert_eq!(
        human_execute("main", &[], &[failed]),
        "base: main\n  x  deleted, remote FAILED: rejected\n\nundo:\n  git branch x abc\n\
         (recent tips also linger in `git reflog` for a while)\n"
    );
    assert_eq!(human_execute("main", &[], &[]), "base: main\n");
}

#[test]
fn ages_at_the_edges() {
    assert_eq!(age(0, 100), "1m", "the future is just now");
    assert_eq!(age(3_599, 0), "59m");
    assert_eq!(age(3_600, 0), "1h");
    assert_eq!(age(86_399, 0), "23h");
    assert_eq!(age(86_400 * 7 - 1, 0), "6d");
    assert_eq!(age(86_400 * 30 - 1, 0), "4w");
    assert_eq!(age(86_400 * 365 - 1, 0), "12mo");
    assert_eq!(age(i64::MAX, i64::MIN), "584942417355y");
}
