use git_barber::git::fake::FakeGit;
use git_barber::ops::{
    delete_one, execute, remote_branch, short, LocalOutcome, PlannedDeletion, RemoteOutcome,
};
use git_barber::scan::{Base, Candidate, CandidateScope, MergeKind};

const SHA: &str = "0123456789abcdef0123";

fn base() -> Base {
    Base {
        name: "origin/main".into(),
        refname: Some("refs/remotes/origin/main".into()),
        sha: "base000".into(),
    }
}

fn candidate(name: &str, kind: MergeKind) -> Candidate {
    Candidate {
        name: name.into(),
        refname: format!("refs/heads/{name}"),
        sha: SHA.into(),
        kind,
        scope: CandidateScope::Local,
        upstream: Some(format!("origin/{name}")),
        remote_name: Some("origin".into()),
        upstream_gone: kind == MergeKind::Gone,
        last_commit_unix: 0,
        subject: String::new(),
        upstream_ref: Some(format!("refs/remotes/origin/{name}")),
    }
}

fn plan(name: &str, kind: MergeKind, delete_remote: bool) -> PlannedDeletion {
    PlannedDeletion {
        candidate: candidate(name, kind),
        delete_remote,
    }
}

/// Cans the CAS pre-check as "tip unchanged".
fn with_tip(git: FakeGit, name: &str) -> FakeGit {
    git.on(
        &[
            "rev-parse",
            "--verify",
            "--quiet",
            &format!("refs/heads/{name}"),
        ],
        Ok(&format!("{SHA}\n")),
    )
}

#[test]
fn merged_branch_uses_gentle_delete() {
    let mut git = with_tip(FakeGit::default(), "feat").on(&["branch", "-d", "--", "feat"], Ok(""));
    let r = delete_one(
        &mut git,
        &base(),
        Some("main"),
        &plan("feat", MergeKind::Merged, false),
    );
    assert_eq!(r.local, LocalOutcome::Deleted);
    assert_eq!(r.remote, RemoteOutcome::Skipped);
    assert_eq!(r.undo, vec!["git branch feat 0123456789ab"]);
}

#[test]
fn moved_tip_refuses_deletion() {
    // The branch advanced between scan and delete: nothing may be run.
    let mut git = FakeGit::default().on(
        &["rev-parse", "--verify", "--quiet", "refs/heads/feat"],
        Ok("fedcba9876543210fedc\n"),
    );
    for kind in [MergeKind::Merged, MergeKind::Squash, MergeKind::Gone] {
        let r = delete_one(&mut git, &base(), None, &plan("feat", kind, true));
        let LocalOutcome::Failed(msg) = &r.local else {
            panic!("expected failure, got {:?}", r.local);
        };
        assert!(msg.contains("moved since scan"), "bad message: {msg}");
        assert_eq!(
            r.remote,
            RemoteOutcome::Skipped,
            "remote must stay untouched"
        );
        assert!(r.undo.is_empty());
    }
}

#[test]
fn vanished_branch_reports_cleanly() {
    let mut git = FakeGit::default().on(
        &["rev-parse", "--verify", "--quiet", "refs/heads/feat"],
        Err(""),
    );
    let r = delete_one(&mut git, &base(), None, &plan("feat", MergeKind::Merged, false));
    assert!(matches!(r.local, LocalOutcome::Failed(ref m) if m.contains("no longer exists")));
}

#[test]
fn gentle_delete_falls_back_to_force_only_when_verified() {
    let mut git = with_tip(FakeGit::default(), "feat")
        .on(
            &["branch", "-d", "--", "feat"],
            Err("error: not fully merged"),
        )
        .on(&["merge-base", "--is-ancestor", SHA, "origin/main"], Ok(""))
        .on(&["branch", "-D", "--", "feat"], Ok(""));
    let r = delete_one(
        &mut git,
        &base(),
        Some("other"),
        &plan("feat", MergeKind::Merged, false),
    );
    assert_eq!(r.local, LocalOutcome::ForceDeleted);

    let mut git = with_tip(FakeGit::default(), "feat")
        .on(
            &["branch", "-d", "--", "feat"],
            Err("error: not fully merged"),
        )
        .on(
            &["merge-base", "--is-ancestor", SHA, "origin/main"],
            Err(""),
        );
    let r = delete_one(
        &mut git,
        &base(),
        Some("other"),
        &plan("feat", MergeKind::Merged, false),
    );
    assert!(matches!(r.local, LocalOutcome::Failed(_)));
    assert!(r.undo.is_empty());
}

#[test]
fn squash_rebase_and_gone_require_force() {
    for kind in [MergeKind::Squash, MergeKind::Rebase, MergeKind::Gone] {
        let mut git =
            with_tip(FakeGit::default(), "feat").on(&["branch", "-D", "--", "feat"], Ok(""));
        let r = delete_one(&mut git, &base(), None, &plan("feat", kind, false));
        assert_eq!(r.local, LocalOutcome::ForceDeleted);
    }
}

#[test]
fn never_deletes_current_or_base() {
    let mut git = FakeGit::default(); // any git call would panic the fake
    let r = delete_one(
        &mut git,
        &base(),
        Some("feat"),
        &plan("feat", MergeKind::Merged, true),
    );
    assert!(matches!(r.local, LocalOutcome::Failed(_)));
    assert_eq!(
        r.remote,
        RemoteOutcome::Skipped,
        "remote must be kept when local failed"
    );

    let mut base_is_feat = base();
    base_is_feat.refname = Some("refs/heads/feat".into());
    let r = delete_one(
        &mut git,
        &base_is_feat,
        Some("main"),
        &plan("feat", MergeKind::Merged, false),
    );
    assert!(matches!(r.local, LocalOutcome::Failed(_)));
}

#[test]
fn remote_deletion_uses_a_lease_and_reports_the_target() {
    let mut git = with_tip(FakeGit::default(), "feat")
        .on(&["branch", "-d", "--", "feat"], Ok(""))
        .on(
            &[
                "rev-parse",
                "--verify",
                "--quiet",
                "refs/remotes/origin/feat",
            ],
            Ok("aaaabbbbccccddddeeee\n"),
        )
        .on(
            &[
                "push",
                "--force-with-lease=refs/heads/feat:aaaabbbbccccddddeeee",
                "origin",
                ":refs/heads/feat",
            ],
            Ok(""),
        );
    let r = delete_one(&mut git, &base(), None, &plan("feat", MergeKind::Merged, true));
    assert_eq!(
        r.remote,
        RemoteOutcome::Deleted {
            target: "origin/feat".into(),
            sha: "aaaabbbbccccddddeeee".into()
        }
    );
    // The remote undo restores the REMOTE tip, not the local one.
    assert_eq!(
        r.undo,
        vec![
            "git branch feat 0123456789ab",
            "git push origin aaaabbbbcccc:refs/heads/feat",
        ]
    );
}

#[test]
fn stale_remote_lease_fails_with_guidance() {
    let mut git = with_tip(FakeGit::default(), "feat")
        .on(&["branch", "-d", "--", "feat"], Ok(""))
        .on(
            &[
                "rev-parse",
                "--verify",
                "--quiet",
                "refs/remotes/origin/feat",
            ],
            Ok("aaaabbbbccccddddeeee\n"),
        )
        .on(
            &[
                "push",
                "--force-with-lease=refs/heads/feat:aaaabbbbccccddddeeee",
                "origin",
                ":refs/heads/feat",
            ],
            Err("! [rejected] feat (stale info)"),
        );
    let r = delete_one(&mut git, &base(), None, &plan("feat", MergeKind::Merged, true));
    assert!(matches!(r.remote, RemoteOutcome::Failed(ref m) if m.contains("--fetch")));
}

#[test]
fn gone_upstream_is_never_pushed_to() {
    let mut git = with_tip(FakeGit::default(), "feat").on(&["branch", "-D", "--", "feat"], Ok(""));
    let r = delete_one(&mut git, &base(), None, &plan("feat", MergeKind::Gone, true));
    assert_eq!(r.remote, RemoteOutcome::Skipped);
}

#[test]
fn remote_target_can_differ_from_local_name() {
    // git checkout -b local-copy origin/shared → deleting remotely
    // targets "shared", and the user must see that name.
    let mut c = candidate("local-copy", MergeKind::Merged);
    c.upstream = Some("origin/shared".into());
    c.upstream_ref = Some("refs/remotes/origin/shared".into());
    assert_eq!(remote_branch(&c), Some(("origin".into(), "shared".into())));
}

#[test]
fn a_remote_only_candidate_costs_its_remote_branch_and_no_local_one() {
    let c = Candidate {
        name: "origin/old".into(),
        refname: "refs/remotes/origin/old".into(),
        sha: SHA.into(),
        kind: MergeKind::Merged,
        scope: CandidateScope::RemoteOnly,
        upstream: Some("origin/old".into()),
        remote_name: Some("origin".into()),
        upstream_gone: false,
        last_commit_unix: 0,
        subject: String::new(),
        upstream_ref: Some("refs/remotes/origin/old".into()),
    };
    let mut git = FakeGit::default()
        .on(
            &["rev-parse", "--verify", "--quiet", "refs/remotes/origin/old"],
            Ok(&format!("{SHA}\n")),
        )
        .on(
            &[
                "push",
                &format!("--force-with-lease=refs/heads/old:{SHA}"),
                "origin",
                ":refs/heads/old",
            ],
            Ok(""),
        );
    let plan = PlannedDeletion {
        candidate: c,
        delete_remote: true,
    };
    let r = delete_one(&mut git, &base(), None, &plan);
    assert_eq!(r.local, LocalOutcome::Skipped);
    assert_eq!(
        r.remote,
        RemoteOutcome::Deleted {
            target: "origin/old".into(),
            sha: SHA.into()
        }
    );
    assert_eq!(r.undo, vec!["git push origin 0123456789ab:refs/heads/old"]);
    assert!(!r.failed());
}

#[test]
fn a_batch_reports_every_branch_even_when_one_fails() {
    let mut git = with_tip(with_tip(FakeGit::default(), "a"), "b")
        .on(&["symbolic-ref", "--quiet", "--short", "HEAD"], Ok("main\n"))
        .on(&["branch", "-D", "--", "a"], Err("error: busy\n"))
        .on(&["branch", "-d", "--", "b"], Ok(""));
    let plans = vec![
        plan("a", MergeKind::Squash, false),
        plan("main", MergeKind::Merged, false),
        plan("b", MergeKind::Merged, false),
        plan("c", MergeKind::Merged, false),
    ];
    let results = execute(&mut git, &base(), &plans);
    let names: Vec<&str> = results.iter().map(|r| r.name.as_str()).collect();
    assert_eq!(names, vec!["a", "main", "b", "c"]);
    assert_eq!(results[0].local, LocalOutcome::Failed("error: busy".into()));
    assert_eq!(
        results[1].local,
        LocalOutcome::Failed("refusing to delete the checked-out branch".into())
    );
    assert_eq!(results[2].local, LocalOutcome::Deleted);
    assert_eq!(
        results[3].local,
        LocalOutcome::Failed(
            "FakeGit: unexpected call `git rev-parse --verify --quiet refs/heads/c`".into()
        )
    );
}

#[test]
fn a_moved_tip_names_both_shas() {
    let mut git = FakeGit::default().on(
        &["rev-parse", "--verify", "--quiet", "refs/heads/feat"],
        Ok("fedcba9876543210fedc\n"),
    );
    let r = delete_one(&mut git, &base(), None, &plan("feat", MergeKind::Merged, false));
    assert_eq!(
        r.local,
        LocalOutcome::Failed(
            "tip moved since scan (0123456789ab → fedcba987654); rescan before deleting".into()
        )
    );
}

#[test]
fn a_tracking_ref_that_is_gone_cannot_be_leased() {
    let mut git = with_tip(FakeGit::default(), "feat").on(&["branch", "-d", "--", "feat"], Ok(""));
    let r = delete_one(&mut git, &base(), None, &plan("feat", MergeKind::Merged, true));
    assert_eq!(
        r.remote,
        RemoteOutcome::Failed(
            "cannot resolve refs/remotes/origin/feat for a leased delete".into()
        )
    );
}

#[test]
fn shas_are_shown_by_their_first_twelve_bytes() {
    assert_eq!(short("0123456789abcdef"), "0123456789ab");
    assert_eq!(short("0123456789ab"), "0123456789ab");
    assert_eq!(short("0123"), "0123");
    // A cut inside a character is no cut at all.
    assert_eq!(short("0123456789aéz"), "0123456789aéz");
    assert_eq!(short("0123456789éz"), "0123456789é");
}
