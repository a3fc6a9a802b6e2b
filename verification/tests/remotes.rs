use git_barber::cache::{Cache, Key};
use git_barber::git::fake::FakeGit;
use git_barber::progress::NullReporter;
use git_barber::scan::base::{base_local_counterpart, worktree_branches};
use git_barber::scan::refs::RawBranch;
use git_barber::scan::survey::FORMAT;
use git_barber::scan::{scan, Base, CandidateScope, MergeKind, Options};

fn base() -> Base {
    Base {
        name: "origin/main".into(),
        refname: Some("refs/remotes/origin/main".into()),
        sha: "base000".into(),
    }
}

/// A repository whose remote has branches that nothing local tracks.
fn with_remote_branches() -> FakeGit {
    FakeGit::default()
        .on(
            &["rev-parse", "--verify", "--quiet", "trunk^{commit}"],
            Ok("base000\n"),
        )
        .on(
            &["rev-parse", "--symbolic-full-name", "trunk"],
            Ok("refs/remotes/origin/trunk\n"),
        )
        .on(&["symbolic-ref", "--quiet", "--short", "HEAD"], Ok("trunk\n"))
        .on(&["config", "--get-all", "barber.protect"], Err(""))
        .on(&["rev-parse", "--is-shallow-repository"], Ok("true\n"))
        .on(&["worktree", "list", "--porcelain"], Err("too old"))
        .on(
            &[
                "for-each-ref",
                "refs/heads",
                "refs/remotes",
                "--merged",
                "base000",
                "--format=%(refname)",
            ],
            Ok("refs/heads/z-local\nrefs/remotes/origin/a-old\nrefs/remotes/origin/z-local\n\
                refs/remotes/origin/HEAD\nrefs/remotes/origin/trunk\nrefs/remotes/origin/main\n"),
        )
        .on(&["remote"], Ok("upstream\norigin\n"))
        .on(
            &["for-each-ref", "refs/heads", FORMAT],
            Ok("refs/heads/trunk\0t\0\0\0\0\x001\0\nrefs/heads/z-local\0z\0\0\0\0\x002\0subject\n\
                refs/heads/held\0h\0\0\0[gone]\0\x003\0\n"),
        )
        .on(
            &["for-each-ref", "refs/heads", "--format=%(refname:short)"],
            Ok("trunk\nz-local\nheld\n"),
        )
        .on(
            &["for-each-ref", "refs/remotes", FORMAT],
            Ok("refs/remotes/origin/HEAD\0t\0\0\0\0\x001\0\n\
                refs/remotes/origin/trunk\0t\0\0\0\0\x001\0\n\
                refs/remotes/origin/main\0m\0\0\0\0\x001\0\n\
                refs/remotes/origin/z-local\0z\0\0\0\0\x002\0\n\
                refs/remotes/origin/a-old\0aaa\0\0\0\0\x004\0old work\n\
                refs/remotes/origin/b-open\0bbb\0\0\0\0\x005\0\n"),
        )
}

#[test]
fn remote_branches_without_a_local_twin_are_candidates_of_their_own() {
    let mut git = with_remote_branches();
    let options = Options {
        base: Some("trunk"),
        protect: &[],
        jobs: 1,
        include_remote_only: true,
    };
    let mut cache = Cache::default();
    let found = scan(&mut git, &options, &mut NullReporter::new(), &mut cache).unwrap();
    assert_eq!(
        found.warnings,
        vec!["shallow repository: squash/rebase detection is disabled"]
    );
    let seen: Vec<(&str, MergeKind, CandidateScope)> = found
        .candidates
        .iter()
        .map(|c| (c.name.as_str(), c.kind, c.scope))
        .collect();
    // Local ones first, then by kind and name.
    assert_eq!(
        seen,
        vec![
            ("z-local", MergeKind::Merged, CandidateScope::Local),
            ("held", MergeKind::Gone, CandidateScope::Local),
            ("origin/a-old", MergeKind::Merged, CandidateScope::RemoteOnly),
        ]
    );
    let remote = &found.candidates[2];
    assert_eq!(remote.upstream.as_deref(), Some("origin/a-old"));
    assert_eq!(
        remote.upstream_ref.as_deref(),
        Some("refs/remotes/origin/a-old")
    );
    assert_eq!(remote.remote_name.as_deref(), Some("origin"));
    assert_eq!(remote.subject, "old work");
    assert!(cache.stored().is_empty());
}

#[test]
fn a_remote_ref_line_points_at_itself() {
    let b = RawBranch::parse_remote("refs/remotes/up/feat/x\0abc\0\0\0\0\x00-5\0").unwrap();
    assert_eq!(b.name, "up/feat/x");
    assert_eq!(b.short_remote_name(), "feat/x");
    assert_eq!(b.remote_name.as_deref(), Some("up"));
    assert_eq!(b.last_commit_unix, -5);
    assert_eq!(b.subject, "");
    assert!(!b.upstream_gone);
    assert!(RawBranch::parse_remote("refs/remotes/origin\0abc\0\0\0\0\x005\0").is_none());
    assert!(RawBranch::parse_remote("refs/heads/x/y\0abc\0\0\0\0\x005\0").is_none());
    assert!(RawBranch::parse("refs/heads/x\0abc\0\0\0\0").is_none());
    assert!(RawBranch::parse("refs/heads/x\0abc\0\0\0\0\0soon").is_none());
    assert!(RawBranch::parse("refs/heads/x\0abc\0\0\0\0\x005").is_some());
}

#[test]
fn the_local_twin_is_found_by_the_first_remote_that_fits() {
    let mut git = FakeGit::default().on(&["remote"], Ok("up\norigin\n"));
    assert_eq!(
        base_local_counterpart(&mut git, &base()).unwrap().as_deref(),
        Some("refs/heads/main")
    );
    // A base that is no remote branch asks nothing.
    let mut silent = FakeGit::default();
    let local = Base {
        refname: Some("refs/heads/main".into()),
        ..base()
    };
    assert_eq!(base_local_counterpart(&mut silent, &local).unwrap(), None);
    let raw = Base {
        refname: None,
        ..base()
    };
    assert_eq!(base_local_counterpart(&mut silent, &raw).unwrap(), None);
}

#[test]
fn worktrees_hold_the_branches_they_name() {
    let mut git = FakeGit::default().on(
        &["worktree", "list", "--porcelain"],
        Ok("worktree /a\nHEAD 1\nbranch refs/heads/x\n\nworktree /b\nHEAD 2\ndetached\n\nbranch refs/heads/y\n"),
    );
    let held = worktree_branches(&mut git).unwrap();
    assert!(held.contains("refs/heads/x"));
    assert!(held.contains("refs/heads/y"));
    assert_eq!(held.len(), 2);
}

#[test]
fn a_walk_that_fails_names_every_branch_it_cost() {
    let mut git = FakeGit::default()
        .on(
            &["rev-parse", "--verify", "--quiet", "main^{commit}"],
            Ok("base0\n"),
        )
        .on(&["rev-parse", "--symbolic-full-name", "main"], Err(""))
        .on(&["symbolic-ref", "--quiet", "--short", "HEAD"], Err(""))
        .on(&["config", "--get-all", "barber.protect"], Err(""))
        .on(&["rev-parse", "--is-shallow-repository"], Err("old git"))
        .on(&["worktree", "list", "--porcelain"], Ok(""))
        .on(
            &[
                "for-each-ref",
                "refs/heads",
                "--merged",
                "base0",
                "--format=%(refname)",
            ],
            Ok(""),
        )
        .on(
            &["for-each-ref", "refs/heads", FORMAT],
            Ok("refs/heads/a\x00s1\0\0\0\0\x001\0\nrefs/heads/b\x00s2\0\0\0\0\x001\0\n\
                refs/heads/c\x00s3\0\0\0\0\x001\0\nrefs/heads/d\x00s4\0\0\0[gone]\0\x001\0\n"),
        )
        .on(&["merge-base", "base0", "s1"], Ok("fork\n"))
        .on(&["merge-base", "base0", "s2"], Ok("fork\n"))
        .on(&["merge-base", "base0", "s3"], Err(""))
        .on(&["merge-base", "base0", "s4"], Ok("known\n"));
    let mut cache = Cache::default();
    cache.insert(Key::new("base0", "known", "s4"), None);
    let options = Options {
        base: Some("main"),
        protect: &[],
        jobs: 4,
        include_remote_only: false,
    };
    let found = scan(&mut git, &options, &mut NullReporter::new(), &mut cache).unwrap();
    assert_eq!(found.warnings.len(), 2);
    assert!(found.warnings[0].starts_with("a: merge probe failed: FakeGit: unexpected call"));
    assert!(found.warnings[1].starts_with("b: merge probe failed: FakeGit: unexpected call"));
    // The cached "not merged" leaves the missing upstream to speak.
    assert_eq!(found.candidates.len(), 1);
    assert_eq!(found.candidates[0].name, "d");
    assert_eq!(found.candidates[0].kind, MergeKind::Gone);
    assert_eq!(found.base.refname, None);
    assert_eq!(
        cache.stored(),
        vec![("base0:known:s4".to_string(), None)],
        "a failed walk is not remembered"
    );
}
