use git_barber::git::fake::FakeGit;
use git_barber::git::{
    join, launch_failure, run_outcome, try_outcome, Error, Git, SystemGit,
};
use std::path::PathBuf;

#[test]
fn the_fake_answers_exactly_what_it_was_given() {
    let mut git = FakeGit::default()
        .on(&["a", "b"], Ok("first"))
        .on(&["a", "b"], Ok("second"))
        .on(&["a b"], Err("bad"))
        .on_input(&["a", "b"], "in", Ok("piped"));
    assert_eq!(git.run(&["a", "b"]).unwrap(), "second");
    assert_eq!(git.try_run(&["a b"]).unwrap(), (false, "bad".to_string()));
    assert_eq!(git.run(&["a b"]).unwrap_err().message, "`git a b` failed: bad");
    assert_eq!(git.run_with_input(&["a", "b"], "in").unwrap(), "piped");
    assert!(git.run_with_input(&["a", "b"], "other").is_err());
    assert_eq!(
        git.try_run(&["c"]).unwrap_err().message,
        "FakeGit: unexpected call `git c`"
    );
}

#[test]
fn every_launch_ignores_the_surrounding_repository() {
    let git = SystemGit::new(Some(PathBuf::from("/repo")));
    let command = git.command(&["status", "-s"]);
    assert_eq!(command.dir, Some(&PathBuf::from("/repo")));
    assert_eq!(command.args, vec!["status", "-s"]);
    assert_eq!(
        command.cleared,
        vec![
            "GIT_DIR",
            "GIT_WORK_TREE",
            "GIT_INDEX_FILE",
            "GIT_COMMON_DIR",
            "GIT_OBJECT_DIRECTORY",
            "GIT_ALTERNATE_OBJECT_DIRECTORIES",
            "GIT_NAMESPACE",
        ]
    );
    assert_eq!(
        command.set,
        vec![("GIT_TERMINAL_PROMPT".to_string(), "0".to_string())]
    );
    // Only a fetch may ask for credentials.
    let git = SystemGit::new(None);
    assert!(git.command(&["fetch", "--prune"]).set.is_empty());
    assert!(git.command(&["fetch"]).dir.is_none());
    assert_eq!(git.command(&[]).set.len(), 1);
}

#[test]
fn a_finished_process_becomes_an_answer() {
    assert_eq!(
        run_outcome(&["x"], true, "exit status: 0", "out".into(), "noise").unwrap(),
        "out"
    );
    let err = run_outcome(&["x", "y"], false, "exit status: 1", "out".into(), " why \n");
    assert_eq!(
        err.unwrap_err().message,
        "`git x y` failed (exit status: 1): why"
    );
    assert_eq!(
        try_outcome(true, "out".into(), "err".into()),
        (true, "out".to_string())
    );
    assert_eq!(
        try_outcome(false, "out".into(), "err".into()),
        (false, "err".to_string())
    );
}

#[test]
fn an_error_shows_what_lies_behind_it() {
    let e = launch_failure(&["x", "y"], "No such file".into());
    assert_eq!(e.message, "failed to launch `git x y` — is git on PATH?");
    assert_eq!(
        e.chain(),
        "failed to launch `git x y` — is git on PATH?: No such file"
    );
    assert_eq!(Error::new("plain".into()).chain(), "plain");
}

#[test]
fn arguments_are_joined_by_single_spaces() {
    assert_eq!(join(&[]), "");
    assert_eq!(join(&["a"]), "a");
    assert_eq!(join(&["a", "", "c"]), "a  c");
}
